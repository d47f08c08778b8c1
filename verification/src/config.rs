//! The configuration: its sections, their defaults, and when it is valid.
//!
//! Fractions are held as the bit patterns of 64-bit IEEE 754 numbers.
use vstd::prelude::*;

use crate::action;
use crate::text;

verus! {

/// `std::path::PathBuf`, carried through unread.
#[verifier::external_type_specification]
#[verifier::external_body]
pub struct ExPathBuf(std::path::PathBuf);

/// The bit pattern of the number 1.
pub const ONE_BITS: u64 = 0x3ff0_0000_0000_0000;

/// Where the configuration lies.
pub struct Paths {
    pub config_file: std::path::PathBuf,
}

impl Paths {
    pub fn with_config(path: std::path::PathBuf) -> (r: Self)
        ensures
            r.config_file == path,
    {
        Paths { config_file: path }
    }
}

#[derive(Debug)]
pub struct Config {
    pub general: General,
    pub bar: Bar,
    pub startup: Startup,
    pub cursor: Cursor,
    pub font: Font,
    pub input: Input,
    pub displays: Vec<Display>,
    pub keybinds: Vec<Keybind>,
    pub gordian_knot: GordianKnot,
}

/// The settings of the outputs whose name, or model, is `output`.
#[derive(Debug, Clone)]
pub struct Display {
    pub output: String,
    pub mode: String,
    pub dsr_multiplier: u64,
    pub dpi: u32,
    pub filter: String,
}

#[derive(Debug)]
pub struct General {
    pub tags: Vec<String>,
    pub default_layout: String,
    /// The part of the work area that the master column takes.
    pub master_ratio: u64,
}

#[derive(Debug)]
pub struct Bar {
    pub height: u32,
    pub font: String,
    pub bg: String,
    pub fg: String,
    pub clock_format: String,
    pub tag_focused_bg: String,
    pub tag_focused_fg: String,
    pub tag_occupied_fg: String,
    pub tag_empty_fg: String,
    pub notification_fg: String,
}

#[derive(Debug)]
pub struct Startup {
    pub commands: Vec<String>,
    pub spawn: Vec<TaggedSpawn>,
}

/// A command whose window goes to a tag of its own.
#[derive(Debug, Clone)]
pub struct TaggedSpawn {
    pub cmd: String,
    pub tag: String,
    pub class: Option<String>,
}

/// The screen locker's settings.
#[derive(Debug)]
pub struct GordianKnot {
    pub bg: String,
    pub fg: String,
    pub accent: String,
    pub font: String,
    pub idle_timeout_seconds: u64,
    pub prompt: String,
}

/// The pointer's theme, and whether it hides when it rests.
#[derive(Debug)]
pub struct Cursor {
    pub theme: String,
    pub size: u32,
    pub auto_hide: bool,
    pub auto_hide_seconds: u32,
}

#[derive(Debug)]
pub struct Input {
    pub keyboard: InputKeyboard,
    pub idle: Idle,
    pub bell: Bell,
}

/// Auto-repeat and keyboard map. What is 0 or empty is left as the server has it.
#[derive(Debug)]
pub struct InputKeyboard {
    pub repeat_delay: u32,
    pub repeat_rate: u32,
    pub layout: String,
    pub variant: String,
    pub options: Vec<String>,
}

/// Idle times, in seconds. What is 0 is left as the server has it.
#[derive(Debug, Clone, Copy, PartialEq, Eq, Structural)]
pub struct Idle {
    pub lock_seconds: u32,
    pub screensaver_seconds: u32,
    pub dpms_standby_seconds: u32,
    pub dpms_suspend_seconds: u32,
    pub dpms_off_seconds: u32,
}

/// The bell. What is `None` is left as the server has it.
#[derive(Debug, Clone, Copy, PartialEq, Eq, Structural)]
pub struct Bell {
    pub enabled: Option<bool>,
    pub volume: Option<u8>,
    pub pitch_hz: Option<u16>,
    pub duration_ms: Option<u16>,
}

#[derive(Debug)]
pub struct Font {
    pub default: String,
}

#[derive(Debug, Clone)]
pub struct Keybind {
    pub mods: Vec<String>,
    pub key: String,
    pub action: String,
    pub args: Option<String>,
}

/// The class of the window that a tagged spawn waits for: the one given, else the first word of
/// the command.
pub open spec fn class_of(sp: TaggedSpawn) -> Seq<char> {
    match sp.class {
        Some(c) => c@,
        None => {
            let w = text::words(sp.cmd@);
            if w.len() > 0 {
                w[0]
            } else {
                Seq::empty()
            }
        },
    }
}

impl TaggedSpawn {
    pub fn class_match(&self) -> (r: String)
        ensures
            r@ == class_of(*self),
    {
        match &self.class {
            Some(c) => c.clone(),
            None => {
                let chars = text::chars_of(self.cmd.as_str());
                let words = text::words_of(chars.as_slice());
                if words.len() > 0 {
                    assert(text::views(words@)[0] == words@[0]@);
                    text::string_of(words[0].as_slice())
                } else {
                    String::new()
                }
            },
        }
    }
}

// --- defaults ---

pub fn default_tags() -> (r: Vec<String>)
    ensures
        text::texts(r@) == seq!["X"@, "Y"@, "Z"@],
{
    let mut r: Vec<String> = Vec::new();
    r.push("X".to_string());
    r.push("Y".to_string());
    r.push("Z".to_string());
    assert(text::texts(r@) =~= seq!["X"@, "Y"@, "Z"@]);
    r
}

pub fn default_layout() -> (r: String)
    ensures
        r@ == "floating"@,
{
    "floating".to_string()
}

/// One half, as an IEEE 754 bit pattern.
pub fn default_master_ratio() -> (r: u64)
    ensures
        r == 0x3fe0_0000_0000_0000,
{
    0x3fe0_0000_0000_0000
}

pub fn default_bar_height() -> (r: u32)
    ensures
        r == 40,
{
    40
}

pub fn default_font() -> (r: String)
    ensures
        r@ == "Noto Sans 9"@,
{
    "Noto Sans 9".to_string()
}

pub fn default_bar_bg() -> (r: String)
    ensures
        r@ == "#121212"@,
{
    "#121212".to_string()
}

pub fn default_bar_fg() -> (r: String)
    ensures
        r@ == "#888888"@,
{
    "#888888".to_string()
}

pub fn default_clock_format() -> (r: String)
    ensures
        r@ == "%a %b %d %Y   %I:%M:%S %p %Z"@,
{
    "%a %b %d %Y   %I:%M:%S %p %Z".to_string()
}

pub fn default_tag_focused_bg() -> (r: String)
    ensures
        r@ == "#4A4881"@,
{
    "#4A4881".to_string()
}

pub fn default_tag_focused_fg() -> (r: String)
    ensures
        r@ == "#ffffff"@,
{
    "#ffffff".to_string()
}

pub fn default_tag_occupied_fg() -> (r: String)
    ensures
        r@ == "#888888"@,
{
    "#888888".to_string()
}

pub fn default_tag_empty_fg() -> (r: String)
    ensures
        r@ == "#555555"@,
{
    "#555555".to_string()
}

pub fn default_notification_fg() -> (r: String)
    ensures
        r@ == "#e5a93d"@,
{
    "#e5a93d".to_string()
}

pub fn default_cursor_theme() -> (r: String)
    ensures
        r@ == "default"@,
{
    "default".to_string()
}

pub fn default_cursor_size() -> (r: u32)
    ensures
        r == 24,
{
    24
}

pub fn default_cursor_auto_hide_seconds() -> (r: u32)
    ensures
        r == 5,
{
    5
}

/// One, as an IEEE 754 bit pattern.
pub fn default_dsr_multiplier() -> (r: u64)
    ensures
        r == ONE_BITS,
{
    ONE_BITS
}

pub fn default_dsr_filter() -> (r: String)
    ensures
        r@ == "bilinear"@,
{
    "bilinear".to_string()
}

pub fn default_font_family() -> (r: String)
    ensures
        r@ == "Noto Sans 9"@,
{
    "Noto Sans 9".to_string()
}

pub fn default_gk_bg() -> (r: String)
    ensures
        r@ == "#121212"@,
{
    "#121212".to_string()
}

pub fn default_gk_fg() -> (r: String)
    ensures
        r@ == "#c8c8c8"@,
{
    "#c8c8c8".to_string()
}

pub fn default_gk_accent() -> (r: String)
    ensures
        r@ == "#e5a93d"@,
{
    "#e5a93d".to_string()
}

pub fn default_gk_font() -> (r: String)
    ensures
        r@ == "monospace 12"@,
{
    "monospace 12".to_string()
}

pub fn default_gk_idle_timeout() -> (r: u64)
    ensures
        r == 600,
{
    600
}

pub fn default_gk_prompt() -> (r: String)
    ensures
        r@ == "PASSWORD"@,
{
    "PASSWORD".to_string()
}

impl Default for General {
    fn default() -> (r: Self)
        ensures
            text::texts(r.tags@) == seq!["X"@, "Y"@, "Z"@],
            r.default_layout@ == "floating"@,
            r.master_ratio == 0x3fe0_0000_0000_0000,
    {
        General {
            tags: default_tags(),
            default_layout: default_layout(),
            master_ratio: default_master_ratio(),
        }
    }
}

impl Default for Bar {
    fn default() -> (r: Self)
        ensures
            r.height == 40,
            r.font@ == "Noto Sans 9"@,
            r.bg@ == "#121212"@,
            r.fg@ == "#888888"@,
            r.clock_format@ == "%a %b %d %Y   %I:%M:%S %p %Z"@,
            r.tag_focused_bg@ == "#4A4881"@,
            r.tag_focused_fg@ == "#ffffff"@,
            r.tag_occupied_fg@ == "#888888"@,
            r.tag_empty_fg@ == "#555555"@,
            r.notification_fg@ == "#e5a93d"@,
    {
        Bar {
            height: default_bar_height(),
            font: default_font(),
            bg: default_bar_bg(),
            fg: default_bar_fg(),
            clock_format: default_clock_format(),
            tag_focused_bg: default_tag_focused_bg(),
            tag_focused_fg: default_tag_focused_fg(),
            tag_occupied_fg: default_tag_occupied_fg(),
            tag_empty_fg: default_tag_empty_fg(),
            notification_fg: default_notification_fg(),
        }
    }
}

impl Default for Startup {
    fn default() -> (r: Self)
        ensures
            r.commands@.len() == 0,
            r.spawn@.len() == 0,
    {
        Startup { commands: Vec::new(), spawn: Vec::new() }
    }
}

impl Default for GordianKnot {
    fn default() -> (r: Self)
        ensures
            r.bg@ == "#121212"@,
            r.fg@ == "#c8c8c8"@,
            r.accent@ == "#e5a93d"@,
            r.font@ == "monospace 12"@,
            r.idle_timeout_seconds == 600,
            r.prompt@ == "PASSWORD"@,
    {
        GordianKnot {
            bg: default_gk_bg(),
            fg: default_gk_fg(),
            accent: default_gk_accent(),
            font: default_gk_font(),
            idle_timeout_seconds: default_gk_idle_timeout(),
            prompt: default_gk_prompt(),
        }
    }
}

impl Default for Cursor {
    fn default() -> (r: Self)
        ensures
            r.theme@ == "default"@,
            r.size == 24,
            !r.auto_hide,
            r.auto_hide_seconds == 5,
    {
        Cursor {
            theme: default_cursor_theme(),
            size: default_cursor_size(),
            auto_hide: false,
            auto_hide_seconds: default_cursor_auto_hide_seconds(),
        }
    }
}

impl Default for InputKeyboard {
    fn default() -> (r: Self)
        ensures
            r.repeat_delay == 0,
            r.repeat_rate == 0,
            r.layout@.len() == 0,
            r.variant@.len() == 0,
            r.options@.len() == 0,
    {
        InputKeyboard {
            repeat_delay: 0,
            repeat_rate: 0,
            layout: String::new(),
            variant: String::new(),
            options: Vec::new(),
        }
    }
}

impl Default for Idle {
    fn default() -> (r: Self)
        ensures
            r == (Idle {
                lock_seconds: 0,
                screensaver_seconds: 0,
                dpms_standby_seconds: 0,
                dpms_suspend_seconds: 0,
                dpms_off_seconds: 0,
            }),
    {
        Idle {
            lock_seconds: 0,
            screensaver_seconds: 0,
            dpms_standby_seconds: 0,
            dpms_suspend_seconds: 0,
            dpms_off_seconds: 0,
        }
    }
}

impl Default for Bell {
    fn default() -> (r: Self)
        ensures
            r == (Bell { enabled: None, volume: None, pitch_hz: None, duration_ms: None }),
    {
        Bell { enabled: None, volume: None, pitch_hz: None, duration_ms: None }
    }
}

impl Default for Input {
    fn default() -> (r: Self)
        ensures
            r.keyboard.repeat_delay == 0,
            r.keyboard.repeat_rate == 0,
            r.keyboard.layout@.len() == 0,
            r.keyboard.variant@.len() == 0,
            r.keyboard.options@.len() == 0,
            r.idle == (Idle {
                lock_seconds: 0,
                screensaver_seconds: 0,
                dpms_standby_seconds: 0,
                dpms_suspend_seconds: 0,
                dpms_off_seconds: 0,
            }),
            r.bell == (Bell { enabled: None, volume: None, pitch_hz: None, duration_ms: None }),
    {
        Input {
            keyboard: InputKeyboard::default(),
            idle: Idle::default(),
            bell: Bell::default(),
        }
    }
}

impl Default for Font {
    fn default() -> (r: Self)
        ensures
            r.default@ == "Noto Sans 9"@,
    {
        Font { default: default_font_family() }
    }
}

impl Default for Config {
    fn default() -> (r: Self)
        ensures
            text::texts(r.general.tags@) == seq!["X"@, "Y"@, "Z"@],
            r.general.default_layout@ == "floating"@,
            r.general.master_ratio == 0x3fe0_0000_0000_0000,
            r.bar.height == 40,
            r.bar.font@ == "Noto Sans 9"@,
            r.bar.bg@ == "#121212"@,
            r.bar.fg@ == "#888888"@,
            r.bar.clock_format@ == "%a %b %d %Y   %I:%M:%S %p %Z"@,
            r.bar.tag_focused_bg@ == "#4A4881"@,
            r.bar.tag_focused_fg@ == "#ffffff"@,
            r.bar.tag_occupied_fg@ == "#888888"@,
            r.bar.tag_empty_fg@ == "#555555"@,
            r.bar.notification_fg@ == "#e5a93d"@,
            r.startup.commands@.len() == 0,
            r.startup.spawn@.len() == 0,
            r.cursor.theme@ == "default"@,
            r.cursor.size == 24,
            !r.cursor.auto_hide,
            r.cursor.auto_hide_seconds == 5,
            r.font.default@ == "Noto Sans 9"@,
            r.input.keyboard.repeat_delay == 0,
            r.input.keyboard.repeat_rate == 0,
            r.input.keyboard.layout@.len() == 0,
            r.input.keyboard.variant@.len() == 0,
            r.input.keyboard.options@.len() == 0,
            r.input.idle == (Idle {
                lock_seconds: 0,
                screensaver_seconds: 0,
                dpms_standby_seconds: 0,
                dpms_suspend_seconds: 0,
                dpms_off_seconds: 0,
            }),
            r.input.bell == (Bell {
                enabled: None,
                volume: None,
                pitch_hz: None,
                duration_ms: None,
            }),
            r.displays@.len() == 0,
            r.keybinds@.len() == 0,
            r.gordian_knot.bg@ == "#121212"@,
            r.gordian_knot.fg@ == "#c8c8c8"@,
            r.gordian_knot.accent@ == "#e5a93d"@,
            r.gordian_knot.font@ == "monospace 12"@,
            r.gordian_knot.idle_timeout_seconds == 600,
            r.gordian_knot.prompt@ == "PASSWORD"@,
            config_error(r) is None,
    {
        let r = Config {
            general: General::default(),
            bar: Bar::default(),
            startup: Startup::default(),
            cursor: Cursor::default(),
            font: Font::default(),
            input: Input::default(),
            displays: Vec::new(),
            keybinds: Vec::new(),
            gordian_knot: GordianKnot::default(),
        };
        assert(text::texts(r.general.tags@).len() == 3);
        r
    }
}

// --- validity ---

/// Why a configuration is refused.
#[derive(Debug)]
pub enum ConfigError {
    NoTags,
    /// The master ratio, as a bit pattern.
    MasterRatio(u64),
    UnknownLayout(String),
    /// A tagged spawn names a tag that there is not.
    SpawnTag { index: usize, tag: String },
    /// A tagged spawn has no command.
    SpawnCommand { index: usize },
    UnknownModifier { index: usize, modifier: String },
    UnknownAction { index: usize, action: String },
}

/// The same as mathematics.
pub enum ErrorView {
    NoTags,
    MasterRatio(u64),
    UnknownLayout(Seq<char>),
    SpawnTag { index: int, tag: Seq<char> },
    SpawnCommand { index: int },
    UnknownModifier { index: int, modifier: Seq<char> },
    UnknownAction { index: int, action: Seq<char> },
}

impl View for ConfigError {
    type V = ErrorView;

    open spec fn view(&self) -> ErrorView {
        match *self {
            ConfigError::NoTags => ErrorView::NoTags,
            ConfigError::MasterRatio(r) => ErrorView::MasterRatio(r),
            ConfigError::UnknownLayout(l) => ErrorView::UnknownLayout(l@),
            ConfigError::SpawnTag { index, tag } => ErrorView::SpawnTag {
                index: index as int,
                tag: tag@,
            },
            ConfigError::SpawnCommand { index } => ErrorView::SpawnCommand { index: index as int },
            ConfigError::UnknownModifier { index, modifier } => ErrorView::UnknownModifier {
                index: index as int,
                modifier: modifier@,
            },
            ConfigError::UnknownAction { index, action } => ErrorView::UnknownAction {
                index: index as int,
                action: action@,
            },
        }
    }
}

/// Whether a bit pattern is that of a number between 0 and 1, neither of them included.
pub open spec fn is_fraction(bits: u64) -> bool {
    0 < bits < ONE_BITS
}

pub open spec fn is_layout_name(s: Seq<char>) -> bool {
    s == "floating"@ || s == "tile"@ || s == "monocle"@
}

pub open spec fn is_modifier(s: Seq<char>) -> bool {
    s == "Super"@ || s == "Alt"@ || s == "Control"@ || s == "Shift"@
}

/// The first fault of the tagged spawns from `i` on.
pub open spec fn spawn_error(
    tags: Seq<Seq<char>>,
    spawns: Seq<TaggedSpawn>,
    i: int,
) -> Option<ErrorView>
    decreases spawns.len() - i,
{
    if i >= spawns.len() {
        None
    } else if !tags.contains(spawns[i].tag@) {
        Some(ErrorView::SpawnTag { index: i, tag: spawns[i].tag@ })
    } else if text::trim(spawns[i].cmd@).len() == 0 {
        Some(ErrorView::SpawnCommand { index: i })
    } else {
        spawn_error(tags, spawns, i + 1)
    }
}

/// The first unknown modifier from `j` on.
pub open spec fn modifier_error(mods: Seq<Seq<char>>, index: int, j: int) -> Option<ErrorView>
    decreases mods.len() - j,
{
    if j >= mods.len() {
        None
    } else if !is_modifier(mods[j]) {
        Some(ErrorView::UnknownModifier { index, modifier: mods[j] })
    } else {
        modifier_error(mods, index, j + 1)
    }
}

/// The first fault of the keybindings from `i` on.
pub open spec fn keybind_error(keybinds: Seq<Keybind>, i: int) -> Option<ErrorView>
    decreases keybinds.len() - i,
{
    if i >= keybinds.len() {
        None
    } else {
        match modifier_error(text::texts(keybinds[i].mods@), i, 0) {
            Some(e) => Some(e),
            None => if !action::is_action(keybinds[i].action@) {
                Some(ErrorView::UnknownAction { index: i, action: keybinds[i].action@ })
            } else {
                keybind_error(keybinds, i + 1)
            },
        }
    }
}

/// The first fault of a configuration, if it has one.
pub open spec fn config_error(c: Config) -> Option<ErrorView> {
    if c.general.tags@.len() == 0 {
        Some(ErrorView::NoTags)
    } else if !is_fraction(c.general.master_ratio) {
        Some(ErrorView::MasterRatio(c.general.master_ratio))
    } else if !is_layout_name(c.general.default_layout@) {
        Some(ErrorView::UnknownLayout(c.general.default_layout@))
    } else {
        match spawn_error(text::texts(c.general.tags@), c.startup.spawn@, 0) {
            Some(e) => Some(e),
            None => keybind_error(c.keybinds@, 0),
        }
    }
}

/// Refuses an action that there is not.
pub fn validate_action(name: &str, idx: usize) -> (r: Result<(), ConfigError>)
    ensures
        match r {
            Ok(_) => action::is_action(name@),
            Err(e) => !action::is_action(name@) && e@ == (ErrorView::UnknownAction {
                index: idx as int,
                action: name@,
            }),
        },
{
    if action::is_known(name) {
        Ok(())
    } else {
        Err(ConfigError::UnknownAction { index: idx, action: name.to_string() })
    }
}

fn check_spawns(tags: &Vec<String>, spawns: &Vec<TaggedSpawn>) -> (r: Option<ConfigError>)
    ensures
        match r {
            Some(e) => spawn_error(text::texts(tags@), spawns@, 0) == Some(e@),
            None => spawn_error(text::texts(tags@), spawns@, 0) is None,
        },
{
    let ghost names = text::texts(tags@);
    let mut i: usize = 0;
    while i < spawns.len()
        invariant
            i <= spawns.len(),
            names == text::texts(tags@),
            spawn_error(names, spawns@, 0) == spawn_error(names, spawns@, i as int),
        decreases spawns.len() - i,
    {
        let sp = &spawns[i];
        match text::position_of(tags, sp.tag.as_str()) {
            Some(k) => {
                assert(names[k as int] == sp.tag@);
            },
            None => {
                assert(!names.contains(sp.tag@)) by {
                    if names.contains(sp.tag@) {
                        let k = names.index_of(sp.tag@);
                        assert(tags@[k]@ == sp.tag@);
                    }
                }
                return Some(ConfigError::SpawnTag { index: i, tag: sp.tag.clone() });
            },
        }
        let cmd = text::chars_of(sp.cmd.as_str());
        if text::trim_chars(cmd.as_slice()).len() == 0 {
            return Some(ConfigError::SpawnCommand { index: i });
        }
        i += 1;
    }
    None
}

fn check_modifiers(mods: &Vec<String>, index: usize) -> (r: Option<ConfigError>)
    ensures
        match r {
            Some(e) => modifier_error(text::texts(mods@), index as int, 0) == Some(e@),
            None => modifier_error(text::texts(mods@), index as int, 0) is None,
        },
{
    let ghost names = text::texts(mods@);
    let mut j: usize = 0;
    while j < mods.len()
        invariant
            j <= mods.len(),
            names == text::texts(mods@),
            modifier_error(names, index as int, 0) == modifier_error(
                names,
                index as int,
                j as int,
            ),
        decreases mods.len() - j,
    {
        let m = mods[j].as_str();
        assert(names[j as int] == m@);
        if !(text::same_text(m, "Super") || text::same_text(m, "Alt") || text::same_text(
            m,
            "Control",
        ) || text::same_text(m, "Shift")) {
            return Some(ConfigError::UnknownModifier { index, modifier: mods[j].clone() });
        }
        j += 1;
    }
    None
}

fn check_keybinds(keybinds: &Vec<Keybind>) -> (r: Result<(), ConfigError>)
    ensures
        match r {
            Ok(_) => keybind_error(keybinds@, 0) is None,
            Err(e) => keybind_error(keybinds@, 0) == Some(e@),
        },
{
    let mut i: usize = 0;
    while i < keybinds.len()
        invariant
            i <= keybinds.len(),
            keybind_error(keybinds@, 0) == keybind_error(keybinds@, i as int),
        decreases keybinds.len() - i,
    {
        let kb = &keybinds[i];
        if let Some(e) = check_modifiers(&kb.mods, i) {
            return Err(e);
        }
        match validate_action(kb.action.as_str(), i) {
            Ok(_) => {},
            Err(e) => return Err(e),
        }
        i += 1;
    }
    Ok(())
}

/// Accepts a configuration, or says what is wrong with it first.
pub fn validate(config: &Config) -> (r: Result<(), ConfigError>)
    ensures
        match r {
            Ok(_) => config_error(*config) is None,
            Err(e) => config_error(*config) == Some(e@),
        },
{
    if config.general.tags.len() == 0 {
        return Err(ConfigError::NoTags);
    }
    let ratio = config.general.master_ratio;
    if !(0 < ratio && ratio < ONE_BITS) {
        return Err(ConfigError::MasterRatio(ratio));
    }
    let lay = config.general.default_layout.as_str();
    if !(text::same_text(lay, "floating") || text::same_text(lay, "tile") || text::same_text(
        lay,
        "monocle",
    )) {
        return Err(ConfigError::UnknownLayout(config.general.default_layout.clone()));
    }
    if let Some(e) = check_spawns(&config.general.tags, &config.startup.spawn) {
        return Err(e);
    }
    check_keybinds(&config.keybinds)
}

/// Every tagged spawn of an accepted configuration names a tag that there is, and has a command.
pub proof fn law_accepted_spawns_have_tags(c: Config, i: int)
    requires
        config_error(c) is None,
        0 <= i < c.startup.spawn@.len(),
    ensures
        text::texts(c.general.tags@).contains(c.startup.spawn@[i].tag@),
        text::trim(c.startup.spawn@[i].cmd@).len() > 0,
{
    lemma_no_spawn_error(text::texts(c.general.tags@), c.startup.spawn@, 0, i);
}

proof fn lemma_no_spawn_error(
    tags: Seq<Seq<char>>,
    spawns: Seq<TaggedSpawn>,
    from: int,
    i: int,
)
    requires
        spawn_error(tags, spawns, from) is None,
        0 <= from <= i < spawns.len(),
    ensures
        tags.contains(spawns[i].tag@),
        text::trim(spawns[i].cmd@).len() > 0,
    decreases i - from,
{
    if from < i {
        lemma_no_spawn_error(tags, spawns, from + 1, i);
    }
}

/// Every keybinding of an accepted configuration names an action that there is, and modifiers that
/// there are.
pub proof fn law_accepted_keybinds_are_known(c: Config, i: int)
    requires
        config_error(c) is None,
        0 <= i < c.keybinds@.len(),
    ensures
        action::is_action(c.keybinds@[i].action@),
        forall|j: int|
            0 <= j < c.keybinds@[i].mods@.len() ==> is_modifier(
                (#[trigger] c.keybinds@[i].mods@[j])@,
            ),
{
    lemma_no_keybind_error(c.keybinds@, 0, i);
    let mods = text::texts(c.keybinds@[i].mods@);
    assert forall|j: int| 0 <= j < c.keybinds@[i].mods@.len() implies is_modifier(
        (#[trigger] c.keybinds@[i].mods@[j])@,
    ) by {
        lemma_no_modifier_error(mods, i, 0, j);
        assert(mods[j] == c.keybinds@[i].mods@[j]@);
    }
}

proof fn lemma_no_keybind_error(keybinds: Seq<Keybind>, from: int, i: int)
    requires
        keybind_error(keybinds, from) is None,
        0 <= from <= i < keybinds.len(),
    ensures
        action::is_action(keybinds[i].action@),
        modifier_error(text::texts(keybinds[i].mods@), i, 0) is None,
    decreases i - from,
{
    if from < i {
        lemma_no_keybind_error(keybinds, from + 1, i);
    }
}

proof fn lemma_no_modifier_error(mods: Seq<Seq<char>>, index: int, from: int, j: int)
    requires
        modifier_error(mods, index, from) is None,
        0 <= from <= j < mods.len(),
    ensures
        is_modifier(mods[j]),
    decreases j - from,
{
    if from < j {
        lemma_no_modifier_error(mods, index, from + 1, j);
    }
}

/// `before` with a number after it.
pub open spec fn numbered(before: Seq<char>, n: int, after: Seq<char>) -> Seq<char> {
    before + text::decimal(n as nat) + after
}

impl ConfigError {
    /// The message of the error. `ratio` is the master ratio as it is to be shown.
    pub fn message(&self, ratio: &str) -> (r: String)
        ensures
            r@ == match self@ {
                ErrorView::NoTags => "general.tags must not be empty"@,
                ErrorView::MasterRatio(_) =>
                    "general.master_ratio must be between 0.0 and 1.0, got "@ + ratio@,
                ErrorView::UnknownLayout(l) => "general.default_layout: unknown layout '"@ + l
                    + "'"@,
                ErrorView::SpawnTag { index, tag } => numbered(
                    "startup.spawn["@,
                    index,
                    "]: tag '"@,
                ) + tag + "' not in general.tags"@,
                ErrorView::SpawnCommand { index } => numbered(
                    "startup.spawn["@,
                    index,
                    "]: cmd must not be empty"@,
                ),
                ErrorView::UnknownModifier { index, modifier } => numbered(
                    "keybind["@,
                    index,
                    "]: unknown modifier '"@,
                ) + modifier + "'"@,
                ErrorView::UnknownAction { index, action } => numbered(
                    "keybind["@,
                    index,
                    "]: unknown action '"@,
                ) + action + "'"@,
            },
    {
        let mut out = String::new();
        match self {
            ConfigError::NoTags => {
                out.append("general.tags must not be empty");
                assert(out@ =~= "general.tags must not be empty"@);
            },
            ConfigError::MasterRatio(_) => {
                out.append("general.master_ratio must be between 0.0 and 1.0, got ");
                out.append(ratio);
                assert(out@ =~= "general.master_ratio must be between 0.0 and 1.0, got "@
                    + ratio@);
            },
            ConfigError::UnknownLayout(l) => {
                out.append("general.default_layout: unknown layout '");
                out.append(l.as_str());
                out.append("'");
                assert(out@ =~= "general.default_layout: unknown layout '"@ + l@ + "'"@);
            },
            ConfigError::SpawnTag { index, tag } => {
                out.append("startup.spawn[");
                text::push_decimal(&mut out, *index as u64);
                out.append("]: tag '");
                out.append(tag.as_str());
                out.append("' not in general.tags");
                assert(out@ =~= numbered("startup.spawn["@, *index as int, "]: tag '"@) + tag@
                    + "' not in general.tags"@);
            },
            ConfigError::SpawnCommand { index } => {
                out.append("startup.spawn[");
                text::push_decimal(&mut out, *index as u64);
                out.append("]: cmd must not be empty");
                assert(out@ =~= numbered(
                    "startup.spawn["@,
                    *index as int,
                    "]: cmd must not be empty"@,
                ));
            },
            ConfigError::UnknownModifier { index, modifier } => {
                out.append("keybind[");
                text::push_decimal(&mut out, *index as u64);
                out.append("]: unknown modifier '");
                out.append(modifier.as_str());
                out.append("'");
                assert(out@ =~= numbered("keybind["@, *index as int, "]: unknown modifier '"@)
                    + modifier@ + "'"@);
            },
            ConfigError::UnknownAction { index, action } => {
                out.append("keybind[");
                text::push_decimal(&mut out, *index as u64);
                out.append("]: unknown action '");
                out.append(action.as_str());
                out.append("'");
                assert(out@ =~= numbered("keybind["@, *index as int, "]: unknown action '"@)
                    + action@ + "'"@);
            },
        }
        out
    }
}

impl Config {
    /// Seconds of idleness after which the screen is locked: the idle section's, or, where that is
    /// 0, the locker's own.
    pub fn lock_timeout(&self) -> (r: u64)
        ensures
            r == if self.input.idle.lock_seconds != 0 {
                self.input.idle.lock_seconds as u64
            } else {
                self.gordian_knot.idle_timeout_seconds
            },
            r == timeout_of(self.input.idle.lock_seconds, self.gordian_knot.idle_timeout_seconds),
    {
        if self.input.idle.lock_seconds != 0 {
            self.input.idle.lock_seconds as u64
        } else {
            self.gordian_knot.idle_timeout_seconds
        }
    }
}

/// A configuration without a fault is accepted: there are tags, the ratio is a fraction, the layout is
/// one of the three, every startup command has a tag that there is and does something, and every key
/// is bound with known modifiers to a known action.
pub proof fn law_sound_config_is_accepted(c: Config)
    requires
        c.general.tags@.len() > 0,
        0 < c.general.master_ratio < 0x3ff0_0000_0000_0000,
        c.general.default_layout@ == "floating"@ || c.general.default_layout@ == "tile"@
            || c.general.default_layout@ == "monocle"@,
        forall|i: int|
            0 <= i < c.startup.spawn@.len() ==> text::texts(c.general.tags@).contains(
                (#[trigger] c.startup.spawn@[i]).tag@,
            ) && text::trim(c.startup.spawn@[i].cmd@).len() > 0,
        forall|i: int|
            0 <= i < c.keybinds@.len() ==> action::is_action((#[trigger] c.keybinds@[i]).action@),
        forall|i: int, j: int|
            0 <= i < c.keybinds@.len() && 0 <= j < c.keybinds@[i].mods@.len() ==> ({
                let m = (#[trigger] c.keybinds@[i].mods@[j])@;
                m == "Super"@ || m == "Alt"@ || m == "Control"@ || m == "Shift"@
            }),
    ensures
        config_error(c) is None,
{
    lemma_sound_spawns(text::texts(c.general.tags@), c.startup.spawn@, 0);
    lemma_sound_keybinds(c.keybinds@, 0);
}

proof fn lemma_sound_spawns(tags: Seq<Seq<char>>, spawns: Seq<TaggedSpawn>, i: int)
    requires
        0 <= i <= spawns.len(),
        forall|k: int|
            i <= k < spawns.len() ==> tags.contains((#[trigger] spawns[k]).tag@) && text::trim(
                spawns[k].cmd@,
            ).len() > 0,
    ensures
        spawn_error(tags, spawns, i) is None,
    decreases spawns.len() - i,
{
    if i < spawns.len() {
        lemma_sound_spawns(tags, spawns, i + 1);
    }
}

proof fn lemma_sound_modifiers(mods: Seq<Seq<char>>, index: int, j: int)
    requires
        0 <= j <= mods.len(),
        forall|k: int| j <= k < mods.len() ==> is_modifier(#[trigger] mods[k]),
    ensures
        modifier_error(mods, index, j) is None,
    decreases mods.len() - j,
{
    if j < mods.len() {
        lemma_sound_modifiers(mods, index, j + 1);
    }
}

proof fn lemma_sound_keybinds(keybinds: Seq<Keybind>, i: int)
    requires
        0 <= i <= keybinds.len(),
        forall|k: int|
            i <= k < keybinds.len() ==> action::is_action((#[trigger] keybinds[k]).action@),
        forall|k: int, j: int|
            i <= k < keybinds.len() && 0 <= j < keybinds[k].mods@.len() ==> is_modifier(
                (#[trigger] keybinds[k].mods@[j])@,
            ),
    ensures
        keybind_error(keybinds, i) is None,
    decreases keybinds.len() - i,
{
    if i < keybinds.len() {
        let mods = text::texts(keybinds[i].mods@);
        assert forall|j: int| 0 <= j < mods.len() implies is_modifier(#[trigger] mods[j]) by {
            assert(mods[j] == keybinds[i].mods@[j]@);
        }
        lemma_sound_modifiers(mods, i, 0);
        lemma_sound_keybinds(keybinds, i + 1);
    }
}

/// The general settings are looked at first, in their order: no tags, then a ratio that is no
/// fraction, then a layout that there is not.
pub proof fn law_general_faults_come_first(c: Config)
    ensures
        c.general.tags@.len() == 0 <==> config_error(c) == Some(ErrorView::NoTags),
        c.general.tags@.len() > 0 && !(0 < c.general.master_ratio < 0x3ff0_0000_0000_0000)
            ==> config_error(c) == Some(ErrorView::MasterRatio(c.general.master_ratio)),
        c.general.tags@.len() > 0 && 0 < c.general.master_ratio < 0x3ff0_0000_0000_0000
            && c.general.default_layout@ != "floating"@ && c.general.default_layout@ != "tile"@
            && c.general.default_layout@ != "monocle"@ ==> config_error(c) == Some(
            ErrorView::UnknownLayout(c.general.default_layout@),
        ),
{
    if c.general.tags@.len() > 0 {
        lemma_spawn_fault(text::texts(c.general.tags@), c.startup.spawn@, 0);
        lemma_keybind_fault(c.keybinds@, 0);
    }
}

proof fn lemma_spawn_fault(tags: Seq<Seq<char>>, spawns: Seq<TaggedSpawn>, i: int)
    requires
        0 <= i <= spawns.len(),
    ensures
        match spawn_error(tags, spawns, i) {
            None => true,
            Some(ErrorView::SpawnTag { index, tag }) => {
                &&& i <= index < spawns.len()
                &&& tag == spawns[index].tag@
                &&& !tags.contains(tag)
                &&& spawn_error(tags, spawns.take(index), i) is None
            },
            Some(ErrorView::SpawnCommand { index }) => {
                &&& i <= index < spawns.len()
                &&& tags.contains(spawns[index].tag@)
                &&& text::trim(spawns[index].cmd@).len() == 0
                &&& spawn_error(tags, spawns.take(index), i) is None
            },
            _ => false,
        },
    decreases spawns.len() - i,
{
    if i < spawns.len() {
        lemma_spawn_fault(tags, spawns, i + 1);
        if tags.contains(spawns[i].tag@) && text::trim(spawns[i].cmd@).len() > 0 {
            match spawn_error(tags, spawns, i) {
                Some(ErrorView::SpawnTag { index, tag }) => {
                    assert(spawns.take(index)[i] == spawns[i]);
                },
                Some(ErrorView::SpawnCommand { index }) => {
                    assert(spawns.take(index)[i] == spawns[i]);
                },
                _ => {},
            }
        }
    }
}

proof fn lemma_modifier_fault(mods: Seq<Seq<char>>, index: int, j: int)
    requires
        0 <= j <= mods.len(),
    ensures
        match modifier_error(mods, index, j) {
            None => true,
            Some(ErrorView::UnknownModifier { index: at, modifier }) => at == index
                && mods.contains(modifier) && !is_modifier(modifier),
            _ => false,
        },
    decreases mods.len() - j,
{
    if j < mods.len() {
        lemma_modifier_fault(mods, index, j + 1);
        assert(mods.contains(mods[j]));
    }
}

proof fn lemma_keybind_fault(keybinds: Seq<Keybind>, i: int)
    requires
        0 <= i <= keybinds.len(),
    ensures
        match keybind_error(keybinds, i) {
            None => true,
            Some(ErrorView::UnknownModifier { index, modifier }) => {
                &&& i <= index < keybinds.len()
                &&& text::texts(keybinds[index].mods@).contains(modifier)
                &&& !is_modifier(modifier)
                &&& keybind_error(keybinds.take(index), i) is None
            },
            Some(ErrorView::UnknownAction { index, action }) => {
                &&& i <= index < keybinds.len()
                &&& action == keybinds[index].action@
                &&& !action::is_action(action)
                &&& keybind_error(keybinds.take(index), i) is None
            },
            _ => false,
        },
    decreases keybinds.len() - i,
{
    if i < keybinds.len() {
        lemma_modifier_fault(text::texts(keybinds[i].mods@), i, 0);
        lemma_keybind_fault(keybinds, i + 1);
        match keybind_error(keybinds, i) {
            Some(ErrorView::UnknownModifier { index, modifier }) => {
                if index > i {
                    assert(keybinds.take(index)[i] == keybinds[i]);
                }
            },
            Some(ErrorView::UnknownAction { index, action }) => {
                if index > i {
                    assert(keybinds.take(index)[i] == keybinds[i]);
                }
            },
            _ => {},
        }
    }
}

/// A fault is told where it is, and it is the first of its list: what is reported of a startup command
/// or of a key is true of the one that is named, and none before it has a fault.
pub proof fn law_fault_is_told_where_it_is(c: Config)
    ensures
        match config_error(c) {
            Some(ErrorView::SpawnTag { index, tag }) => {
                &&& 0 <= index < c.startup.spawn@.len()
                &&& tag == c.startup.spawn@[index].tag@
                &&& !text::texts(c.general.tags@).contains(tag)
                &&& forall|k: int|
                    0 <= k < index ==> text::texts(c.general.tags@).contains(
                        (#[trigger] c.startup.spawn@[k]).tag@,
                    )
            },
            Some(ErrorView::SpawnCommand { index }) => {
                &&& 0 <= index < c.startup.spawn@.len()
                &&& text::trim(c.startup.spawn@[index].cmd@).len() == 0
                &&& forall|k: int|
                    0 <= k < index ==> text::trim((#[trigger] c.startup.spawn@[k]).cmd@).len() > 0
            },
            Some(ErrorView::UnknownModifier { index, modifier }) => {
                &&& 0 <= index < c.keybinds@.len()
                &&& text::texts(c.keybinds@[index].mods@).contains(modifier)
                &&& modifier != "Super"@ && modifier != "Alt"@ && modifier != "Control"@ && modifier
                    != "Shift"@
                &&& forall|k: int|
                    0 <= k < index ==> action::is_action((#[trigger] c.keybinds@[k]).action@)
            },
            Some(ErrorView::UnknownAction { index, action }) => {
                &&& 0 <= index < c.keybinds@.len()
                &&& action == c.keybinds@[index].action@
                &&& !action::is_action(action)
                &&& forall|k: int|
                    0 <= k < index ==> action::is_action((#[trigger] c.keybinds@[k]).action@)
            },
            _ => true,
        },
{
    let tags = text::texts(c.general.tags@);
    let spawns = c.startup.spawn@;
    let keys = c.keybinds@;
    lemma_spawn_fault(tags, spawns, 0);
    lemma_keybind_fault(keys, 0);
    match config_error(c) {
        Some(ErrorView::SpawnTag { index, tag }) => {
            assert forall|k: int| 0 <= k < index implies tags.contains(
                (#[trigger] spawns[k]).tag@,
            ) by {
                lemma_no_spawn_error(tags, spawns.take(index), 0, k);
                assert(spawns.take(index)[k] == spawns[k]);
            }
        },
        Some(ErrorView::SpawnCommand { index }) => {
            assert forall|k: int| 0 <= k < index implies text::trim(
                (#[trigger] spawns[k]).cmd@,
            ).len() > 0 by {
                lemma_no_spawn_error(tags, spawns.take(index), 0, k);
                assert(spawns.take(index)[k] == spawns[k]);
            }
        },
        Some(ErrorView::UnknownModifier { index, modifier }) => {
            assert forall|k: int| 0 <= k < index implies action::is_action(
                (#[trigger] keys[k]).action@,
            ) by {
                lemma_no_keybind_error(keys.take(index), 0, k);
                assert(keys.take(index)[k] == keys[k]);
            }
        },
        Some(ErrorView::UnknownAction { index, action }) => {
            assert forall|k: int| 0 <= k < index implies action::is_action(
                (#[trigger] keys[k]).action@,
            ) by {
                lemma_no_keybind_error(keys.take(index), 0, k);
                assert(keys.take(index)[k] == keys[k]);
            }
        },
        _ => {},
    }
}

/// A startup command's window is known by the class that is given, or by the first word of the
/// command.
pub proof fn law_class_is_given_or_the_program(
    sp: TaggedSpawn,
    blanks: Seq<char>,
    program: Seq<char>,
    rest: Seq<char>,
)
    requires
        sp.cmd@ == blanks + program + rest,
        forall|i: int| 0 <= i < blanks.len() ==> text::is_space(#[trigger] blanks[i]),
        program.len() > 0,
        forall|i: int| 0 <= i < program.len() ==> !text::is_space(#[trigger] program[i]),
        rest.len() == 0 || text::is_space(rest[0]),
    ensures
        sp.class matches Some(c) ==> class_of(sp) == c@,
        sp.class is None ==> class_of(sp) == program,
{
    text::law_words_stand_between_blanks(blanks, program, rest);
}

/// The seconds of idleness before the lock, of the idle section's and of the locker's own.
pub open spec fn timeout_of(idle: u32, own: u64) -> u64 {
    if idle != 0 {
        idle as u64
    } else {
        own
    }
}

/// What the idle section says goes before what the locker says, unless it says nothing.
pub proof fn law_idle_section_goes_first(idle: u32, own: u64, other: u64)
    ensures
        idle > 0 ==> timeout_of(idle, own) == idle && timeout_of(idle, own) == timeout_of(idle, other),
        timeout_of(0, own) == own,
{
}

} // verus!
