//! The status bar: its regions, what of them is stale, what they show, and the run prompt.
//!
//! The text sizes that placing needs come from the font renderer and are handed in.
use vstd::prelude::*;

use crate::config::Config;
use crate::monitor::Monitor;
use crate::text;
use crate::torrentius;
use crate::torrentius::Rgb;

verus! {

/// Width of the prompt region.
pub const PROMPT_MAX_W: i32 = 600;

/// Width of the clock region.
pub const CLOCK_MAX_W: i32 = 400;

/// Padding before the first tag and after the last one.
pub const TAGS_EDGE_PAD: i32 = 20;

/// Keys of the prompt, as keysyms.
pub const KEY_RETURN: u32 = 0xff0d;

pub const KEY_ESCAPE: u32 = 0xff1b;

pub const KEY_TAB: u32 = 0xff09;

pub const KEY_BACKSPACE: u32 = 0xff08;

/// A rectangle of a panel.
#[derive(Debug, Clone, Copy, PartialEq, Eq, Structural)]
pub struct Rect {
    pub x: i32,
    pub y: i32,
    pub w: i32,
    pub h: i32,
}

impl Default for Rect {
    fn default() -> (r: Self)
        ensures
            r == (Rect { x: 0, y: 0, w: 0, h: 0 }),
    {
        Rect { x: 0, y: 0, w: 0, h: 0 }
    }
}

impl Rect {
    /// The pixel column `x` is in the rectangle.
    pub open spec fn spans(self, x: int) -> bool {
        self.x <= x < self.x + self.w
    }
}

/// The regions of a panel, from left to right.
#[derive(Debug, Clone, Copy, PartialEq, Eq, Structural)]
pub struct RegionRects {
    pub tags: Rect,
    pub prompt: Rect,
    pub title: Rect,
    pub clock: Rect,
}

pub open spec fn at_most(n: int, limit: int) -> int {
    if n <= limit {
        n
    } else {
        limit
    }
}

/// The regions of a panel, side by side over its whole width. The clock stands at the right end
/// and the tags at the left one, the prompt follows the tags, and the title has what is left. The
/// clock and the prompt have their fixed widths and the tags take `tags_w`; where the panel is too
/// narrow for all of them, first the prompt, then the tags and last the clock are cut short.
pub open spec fn regions(panel_w: int, panel_h: i32, tags_w: int) -> RegionRects {
    let clock = at_most(CLOCK_MAX_W as int, panel_w);
    let left = panel_w - clock;
    let tags = at_most(tags_w, left);
    let prompt = at_most(PROMPT_MAX_W as int, left - tags);
    RegionRects {
        tags: Rect { x: 0, y: 0, w: tags as i32, h: panel_h },
        prompt: Rect { x: tags as i32, y: 0, w: prompt as i32, h: panel_h },
        title: Rect {
            x: (tags + prompt) as i32,
            y: 0,
            w: (left - tags - prompt) as i32,
            h: panel_h,
        },
        clock: Rect { x: left as i32, y: 0, w: clock as i32, h: panel_h },
    }
}

fn min_of(n: i32, limit: i32) -> (r: i32)
    ensures
        r == at_most(n as int, limit as int),
{
    if n <= limit {
        n
    } else {
        limit
    }
}

pub fn region_rects(panel_w: i32, panel_h: i32, tags_w: i32) -> (r: RegionRects)
    requires
        0 <= panel_w,
        0 <= tags_w,
    ensures
        r == regions(panel_w as int, panel_h, tags_w as int),
{
    let clock = min_of(CLOCK_MAX_W, panel_w);
    let left = panel_w - clock;
    let tags = min_of(tags_w, left);
    let prompt = min_of(PROMPT_MAX_W, left - tags);
    RegionRects {
        tags: Rect { x: 0, y: 0, w: tags, h: panel_h },
        prompt: Rect { x: tags, y: 0, w: prompt, h: panel_h },
        title: Rect { x: tags + prompt, y: 0, w: left - tags - prompt, h: panel_h },
        clock: Rect { x: left, y: 0, w: clock, h: panel_h },
    }
}

/// The regions partition every panel: each begins where the one before it ends, the first one with
/// the panel, and the last one ends with it. Where there is room, the tags, the prompt and the
/// clock have their full widths.
pub proof fn law_regions_partition_panel(panel_w: int, panel_h: i32, tags_w: int)
    requires
        0 <= panel_w <= i32::MAX,
        0 <= tags_w,
    ensures
        ({
            let r = regions(panel_w, panel_h, tags_w);
            &&& r.tags.x == 0 && r.tags.w >= 0
            &&& r.tags.x + r.tags.w == r.prompt.x && r.prompt.w >= 0
            &&& r.prompt.x + r.prompt.w == r.title.x && r.title.w >= 0
            &&& r.title.x + r.title.w == r.clock.x && r.clock.w >= 0
            &&& r.clock.x + r.clock.w == panel_w
            &&& tags_w + PROMPT_MAX_W + CLOCK_MAX_W <= panel_w ==> r.tags.w == tags_w && r.prompt.w
                == PROMPT_MAX_W && r.clock.w == CLOCK_MAX_W
        }),
{
}

/// No pixel column of a panel is in two regions.
pub proof fn law_regions_never_overlap(panel_w: int, panel_h: i32, tags_w: int, x: int)
    requires
        0 <= panel_w <= i32::MAX,
        0 <= tags_w,
    ensures
        ({
            let r = regions(panel_w, panel_h, tags_w);
            &&& !(r.tags.spans(x) && r.prompt.spans(x))
            &&& !(r.tags.spans(x) && r.title.spans(x))
            &&& !(r.tags.spans(x) && r.clock.spans(x))
            &&& !(r.prompt.spans(x) && r.title.spans(x))
            &&& !(r.prompt.spans(x) && r.clock.spans(x))
            &&& !(r.title.spans(x) && r.clock.spans(x))
        }),
{
    law_regions_partition_panel(panel_w, panel_h, tags_w);
}

/// The sum of the first `n` widths.
pub open spec fn width_sum(widths: Seq<i32>, n: int) -> int
    decreases n,
{
    if n <= 0 {
        0
    } else {
        width_sum(widths, n - 1) + widths[n - 1]
    }
}

/// The text of a tag as it is drawn.
pub open spec fn padded_name(name: Seq<char>) -> Seq<char> {
    "  "@ + name + "  "@
}

pub fn padded_tag(name: &str) -> (r: String)
    ensures
        r@ == padded_name(name@),
{
    let mut out = String::new();
    out.append("  ");
    out.append(name);
    out.append("  ");
    assert(out@ =~= padded_name(name@));
    out
}

/// Widths that can be added up.
pub open spec fn widths_fit(widths: Seq<i32>) -> bool {
    &&& forall|i: int| 0 <= i < widths.len() ==> #[trigger] widths[i] >= 0
    &&& width_sum(widths, widths.len() as int) <= i32::MAX - 2 * TAGS_EDGE_PAD
}

proof fn lemma_width_sum(widths: Seq<i32>, i: int, n: int)
    requires
        0 <= i <= n <= widths.len(),
        forall|j: int| 0 <= j < widths.len() ==> #[trigger] widths[j] >= 0,
    ensures
        0 <= width_sum(widths, i) <= width_sum(widths, n),
    decreases n,
{
    if n > i {
        lemma_width_sum(widths, i, n - 1);
    } else if n > 0 {
        lemma_width_sum(widths, i - 1, n - 1);
    }
}

/// The width of the tag strip: the measured texts between the two paddings. Where the texts could
/// not be measured, each of `tags` counts 32 pixels.
pub fn tags_total_w(measured: &Option<Vec<i32>>, tags: usize) -> (r: i32)
    requires
        measured matches Some(w) ==> widths_fit(w@),
        tags * 32 <= i32::MAX - 2 * TAGS_EDGE_PAD,
    ensures
        r == 2 * TAGS_EDGE_PAD + match *measured {
            Some(w) => width_sum(w@, w@.len() as int),
            None => tags * 32,
        },
        measured matches Some(w) ==> r == strip_width(w@),
{
    match measured {
        None => TAGS_EDGE_PAD * 2 + (tags as i32) * 32,
        Some(widths) => {
            let mut total: i32 = 0;
            let mut i: usize = 0;
            while i < widths.len()
                invariant
                    i <= widths.len(),
                    widths_fit(widths@),
                    total == width_sum(widths@, i as int),
                    0 <= total <= i32::MAX - 2 * TAGS_EDGE_PAD,
                decreases widths.len() - i,
            {
                proof {
                    lemma_width_sum(widths@, i + 1, widths@.len() as int);
                }
                total += widths[i];
                i += 1;
            }
            TAGS_EDGE_PAD * 2 + total
        },
    }
}

// --- what is stale ---

/// Which regions are stale. `all` stands for the whole panel.
#[derive(Debug, Clone, Copy, PartialEq, Eq, Structural)]
pub struct BarDirty {
    pub tags: bool,
    pub prompt: bool,
    pub title: bool,
    pub clock: bool,
    pub all: bool,
}

pub open spec fn clean() -> BarDirty {
    BarDirty { tags: false, prompt: false, title: false, clock: false, all: false }
}

impl Default for BarDirty {
    fn default() -> (r: Self)
        ensures
            r == clean(),
    {
        BarDirty { tags: false, prompt: false, title: false, clock: false, all: false }
    }
}

impl BarDirty {
    pub fn any(&self) -> (r: bool)
        ensures
            r == (*self != clean()),
    {
        self.tags || self.prompt || self.title || self.clock || self.all
    }
}

/// A panel of the bar, one on each monitor.
#[derive(Debug, Clone, Copy, PartialEq, Eq, Structural)]
pub struct BarPanel {
    pub window: u32,
    pub width: u32,
    pub rects: RegionRects,
}

/// The colours of the bar.
#[derive(Debug, Clone, Copy, PartialEq, Eq, Structural)]
pub struct BarColors {
    pub bg: Rgb,
    pub fg: Rgb,
    pub tag_focused_bg: Rgb,
    pub tag_focused_fg: Rgb,
    pub tag_occupied_fg: Rgb,
    pub tag_empty_fg: Rgb,
    pub notification_fg: Rgb,
}

/// The run prompt: its text, the cursor as a number of bytes before it, and the name that would
/// complete it.
#[derive(Debug)]
pub struct PromptState {
    pub input: String,
    pub cursor: usize,
    pub completion: Option<String>,
}

/// The bar.
#[derive(Debug)]
pub struct Bar {
    pub panels: Vec<BarPanel>,
    pub height: u32,
    pub font: String,
    pub colors: BarColors,
    pub clock_format: String,
    pub tag_names: Vec<String>,
    pub path_executables: Vec<String>,
    pub prompt: Option<PromptState>,
    pub tag_extents: Vec<(i32, i32)>,
    pub dirty: BarDirty,
    pub last_clock_text: String,
}

pub open spec fn colors_of(c: Config) -> BarColors {
    BarColors {
        bg: torrentius::color_of(c.bar.bg@),
        fg: torrentius::color_of(c.bar.fg@),
        tag_focused_bg: torrentius::color_of(c.bar.tag_focused_bg@),
        tag_focused_fg: torrentius::color_of(c.bar.tag_focused_fg@),
        tag_occupied_fg: torrentius::color_of(c.bar.tag_occupied_fg@),
        tag_empty_fg: torrentius::color_of(c.bar.tag_empty_fg@),
        notification_fg: torrentius::color_of(c.bar.notification_fg@),
    }
}

fn bar_colors(c: &Config) -> (r: BarColors)
    ensures
        r == colors_of(*c),
{
    BarColors {
        bg: torrentius::parse_hex(c.bar.bg.as_str()),
        fg: torrentius::parse_hex(c.bar.fg.as_str()),
        tag_focused_bg: torrentius::parse_hex(c.bar.tag_focused_bg.as_str()),
        tag_focused_fg: torrentius::parse_hex(c.bar.tag_focused_fg.as_str()),
        tag_occupied_fg: torrentius::parse_hex(c.bar.tag_occupied_fg.as_str()),
        tag_empty_fg: torrentius::parse_hex(c.bar.tag_empty_fg.as_str()),
        notification_fg: torrentius::parse_hex(c.bar.notification_fg.as_str()),
    }
}

/// The strip at the top of a monitor that the bar reserves, in the form of `_NET_WM_STRUT_PARTIAL`.
pub fn strut(mon: &Monitor, height: u32) -> (r: [u32; 12])
    requires
        1 <= (mon.x as u32) + mon.width <= u32::MAX,
    ensures
        r@ == seq![
            0u32,
            0u32,
            height,
            0u32,
            0u32,
            0u32,
            0u32,
            0u32,
            (mon.x as u32),
            ((mon.x as u32) + mon.width - 1) as u32,
            0u32,
            0u32,
        ],
{
    let left = mon.x as u32;
    let r: [u32; 12] = [0, 0, height, 0, 0, 0, 0, 0, left, left + mon.width - 1, 0, 0];
    assert(r@ =~= seq![
        0u32,
        0u32,
        height,
        0u32,
        0u32,
        0u32,
        0u32,
        0u32,
        (mon.x as u32),
        ((mon.x as u32) + mon.width - 1) as u32,
        0u32,
        0u32,
    ]);
    r
}

/// Sizes that a bar can have: pixels that can be numbered.
pub open spec fn sizes_fit(monitors: Seq<Monitor>, height: u32, tags_w: i32) -> bool {
    &&& forall|i: int|
        0 <= i < monitors.len() ==> (#[trigger] monitors[i]).width <= i32::MAX
    &&& height <= i32::MAX
    &&& 0 <= tags_w
}

pub open spec fn panel_on(m: Monitor, window: u32, height: u32, tags_w: i32) -> BarPanel {
    BarPanel {
        window,
        width: m.width,
        rects: regions(m.width as int, height as i32, tags_w as int),
    }
}

/// One panel for each monitor.
pub open spec fn panels_on(
    monitors: Seq<Monitor>,
    windows: Seq<u32>,
    height: u32,
    tags_w: i32,
) -> Seq<BarPanel> {
    Seq::new(monitors.len(), |i: int| panel_on(monitors[i], windows[i], height, tags_w))
}

impl Bar {
    /// The bar of a configuration, with `windows` as its panels' windows, one for each monitor. All
    /// of it is to be drawn.
    pub fn create(
        config: &Config,
        monitors: &[Monitor],
        windows: &[u32],
        tag_names: &Vec<String>,
        tags_w: i32,
        path_executables: Vec<String>,
        clock_text: String,
    ) -> (r: Bar)
        requires
            sizes_fit(monitors@, config.bar.height, tags_w),
            windows@.len() == monitors@.len(),
        ensures
            r.panels@ == panels_on(monitors@, windows@, config.bar.height, tags_w),
            r.height == config.bar.height,
            r.font@ == config.bar.font@,
            r.colors == colors_of(*config),
            r.clock_format@ == config.bar.clock_format@,
            text::texts(r.tag_names@) == text::texts(tag_names@),
            r.path_executables == path_executables,
            r.prompt is None,
            r.tag_extents@.len() == 0,
            r.dirty == (BarDirty { all: true, ..clean() }),
            r.last_clock_text == clock_text,
    {
        let height = config.bar.height;
        let mut panels: Vec<BarPanel> = Vec::new();
        let mut i: usize = 0;
        while i < monitors.len()
            invariant
                i <= monitors@.len(),
                windows@.len() == monitors@.len(),
                height == config.bar.height,
                sizes_fit(monitors@, height, tags_w),
                panels@ == panels_on(monitors@, windows@, height, tags_w).take(i as int),
            decreases monitors.len() - i,
        {
            let width = monitors[i].width;
            let rects = region_rects(width as i32, height as i32, tags_w);
            panels.push(BarPanel { window: windows[i], width, rects });
            i += 1;
            assert(panels@ =~= panels_on(monitors@, windows@, height, tags_w).take(i as int));
        }
        assert(panels@ =~= panels_on(monitors@, windows@, height, tags_w));
        let names = text::copy_strings(tag_names);
        assert(text::texts(names@) =~= text::texts(tag_names@));
        Bar {
            panels,
            height,
            font: config.bar.font.clone(),
            colors: bar_colors(config),
            clock_format: config.bar.clock_format.clone(),
            tag_names: names,
            path_executables,
            prompt: None,
            tag_extents: Vec::new(),
            dirty: BarDirty {
                tags: false,
                prompt: false,
                title: false,
                clock: false,
                all: true,
            },
            last_clock_text: clock_text,
        }
    }

    pub fn contains_window(&self, window: u32) -> (r: bool)
        ensures
            r == exists|i: int|
                0 <= i < self.panels@.len() && (#[trigger] self.panels@[i]).window == window,
    {
        let mut i: usize = 0;
        while i < self.panels.len()
            invariant
                i <= self.panels.len(),
                forall|j: int| 0 <= j < i ==> (#[trigger] self.panels@[j]).window != window,
            decreases self.panels.len() - i,
        {
            if self.panels[i].window == window {
                return true;
            }
            i += 1;
        }
        false
    }

    pub fn mark_tags_dirty(&mut self)
        ensures
            *final(self) == (Bar { dirty: BarDirty { tags: true, ..old(self).dirty }, ..*old(self) }),
    {
        self.dirty.tags = true;
    }

    pub fn mark_prompt_dirty(&mut self)
        ensures
            *final(self) == (Bar {
                dirty: BarDirty { prompt: true, ..old(self).dirty },
                ..*old(self)
            }),
    {
        self.dirty.prompt = true;
    }

    pub fn mark_title_dirty(&mut self)
        ensures
            *final(self) == (Bar {
                dirty: BarDirty { title: true, ..old(self).dirty },
                ..*old(self)
            }),
    {
        self.dirty.title = true;
    }

    pub fn mark_all_dirty(&mut self)
        ensures
            *final(self) == (Bar { dirty: BarDirty { all: true, ..old(self).dirty }, ..*old(self) }),
    {
        self.dirty.all = true;
    }

    /// The clock shows `now`: its region is stale only where the text changed.
    pub fn mark_clock_dirty(&mut self, now: String)
        ensures
            *final(self) == if now@ == old(self).last_clock_text@ {
                *old(self)
            } else {
                Bar {
                    dirty: BarDirty { clock: true, ..old(self).dirty },
                    last_clock_text: now,
                    ..*old(self)
                }
            },
    {
        if now == self.last_clock_text {
            return;
        }
        self.last_clock_text = now;
        self.dirty.clock = true;
    }

    /// Takes the stale regions to draw; nothing is stale then.
    pub fn commit(&mut self) -> (r: Option<BarDirty>)
        ensures
            *final(self) == (Bar { dirty: clean(), ..*old(self) }),
            r == if old(self).dirty == clean() {
                None
            } else {
                Some(old(self).dirty)
            },
    {
        if !self.dirty.any() {
            return None;
        }
        let dirty = self.dirty;
        self.dirty = BarDirty {
            tags: false,
            prompt: false,
            title: false,
            clock: false,
            all: false,
        };
        Some(dirty)
    }

    /// Opens an empty prompt.
    pub fn start_prompt(&mut self)
        ensures
            *final(self) == (Bar { prompt: final(self).prompt, ..*old(self) }),
            prompt_view(final(self).prompt) == Some(opened()),
    {
        self.prompt = Some(PromptState { input: String::new(), cursor: 0, completion: None });
    }

    /// Takes over a changed configuration: colours, font and clock format, and a new height for
    /// every panel. Everything is to be drawn again. The result says whether the height changed.
    pub fn update_appearance(&mut self, config: &Config, tags_w: i32) -> (r: bool)
        requires
            config.bar.height <= i32::MAX,
            0 <= tags_w,
            forall|i: int|
                0 <= i < old(self).panels@.len() ==> (#[trigger] old(self).panels@[i]).width
                    <= i32::MAX,
        ensures
            r == (config.bar.height != old(self).height),
            *final(self) == (Bar {
                panels: final(self).panels,
                height: config.bar.height,
                font: final(self).font,
                colors: colors_of(*config),
                clock_format: final(self).clock_format,
                dirty: BarDirty { all: true, ..old(self).dirty },
                ..*old(self)
            }),
            final(self).font@ == config.bar.font@,
            final(self).clock_format@ == config.bar.clock_format@,
            final(self).panels@.len() == old(self).panels@.len(),
            forall|i: int|
                0 <= i < old(self).panels@.len() ==> (#[trigger] final(self).panels@[i]) == (
                BarPanel {
                    rects: regions(
                        old(self).panels@[i].width as int,
                        config.bar.height as i32,
                        tags_w as int,
                    ),
                    ..old(self).panels@[i]
                }),
    {
        let ghost before = *self;
        self.colors = bar_colors(config);
        self.font = config.bar.font.clone();
        self.clock_format = config.bar.clock_format.clone();
        let resized = config.bar.height != self.height;
        self.height = config.bar.height;
        let mut i: usize = 0;
        while i < self.panels.len()
            invariant
                i <= self.panels.len(),
                self.height == config.bar.height <= i32::MAX,
                0 <= tags_w,
                self.panels@.len() == before.panels@.len(),
                *self == (Bar {
                    panels: self.panels,
                    height: config.bar.height,
                    font: self.font,
                    colors: colors_of(*config),
                    clock_format: self.clock_format,
                    ..before
                }),
                self.font@ == config.bar.font@,
                self.clock_format@ == config.bar.clock_format@,
                forall|j: int|
                    0 <= j < before.panels@.len() ==> (#[trigger] before.panels@[j]).width
                        <= i32::MAX,
                forall|j: int|
                    0 <= j < i ==> (#[trigger] self.panels@[j]) == (BarPanel {
                        rects: regions(
                            before.panels@[j].width as int,
                            config.bar.height as i32,
                            tags_w as int,
                        ),
                        ..before.panels@[j]
                    }),
                forall|j: int|
                    i <= j < before.panels@.len() ==> self.panels@[j] == before.panels@[j],
            decreases self.panels.len() - i,
        {
            let width = self.panels[i].width;
            assert(width == before.panels@[i as int].width);
            let rects = region_rects(width as i32, self.height as i32, tags_w);
            self.panels[i].rects = rects;
            i += 1;
        }
        self.dirty.all = true;
        resized
    }

    /// Hands a key to the prompt. The result is a command to run.
    pub fn handle_prompt_key(&mut self, keysym: u32) -> (r: Option<String>)
        requires
            old(self).prompt matches Some(p) ==> p.wf(),
            prompt_view(old(self).prompt) matches Some(p) ==> key_fits(p, keysym),
        ensures
            *final(self) == (Bar { prompt: final(self).prompt, ..*old(self) }),
            final(self).prompt matches Some(p) ==> p.wf(),
            prompt_view(final(self).prompt) == match prompt_view(old(self).prompt) {
                Some(p) => prompt_after(p, text::texts(old(self).path_executables@), keysym),
                None => None,
            },
            match r {
                Some(cmd) => prompt_view(old(self).prompt) matches Some(p) && prompt_command(
                    p,
                    keysym,
                ) == Some(cmd@),
                None => prompt_view(old(self).prompt) matches Some(p) ==> prompt_command(
                    p,
                    keysym,
                ) is None,
            },
    {
        let mut prompt = match self.prompt.take() {
            Some(p) => p,
            None => return None,
        };
        if keysym == KEY_RETURN {
            let cmd = prompt.input;
            if text::chars_of(cmd.as_str()).len() == 0 {
                return None;
            }
            return Some(cmd);
        }
        if keysym == KEY_ESCAPE {
            return None;
        }
        if keysym == KEY_TAB {
            prompt.accept_completion(&self.path_executables);
        } else if keysym == KEY_BACKSPACE {
            prompt.backspace(&self.path_executables);
        } else if 0x20 <= keysym && keysym <= 0x7e {
            prompt.insert(keysym as u8 as char, &self.path_executables);
        }
        self.prompt = Some(prompt);
        None
    }

    /// Where the tags of a panel are drawn, from the measured sizes of their padded texts. On the
    /// first panel this is also where clicks find them.
    pub fn render_tags(
        &mut self,
        pi: usize,
        sizes: &Vec<(i32, i32)>,
        active_tag: usize,
        occupied: &Vec<bool>,
    ) -> (r: Vec<TagCell>)
        requires
            pi < old(self).panels@.len(),
            0 <= old(self).panels@[pi as int].rects.tags.h,
            old(self).panels@[pi as int].rects.tags.x == 0,
            sizes@.len() == old(self).tag_names@.len(),
            sizes_measured(sizes@),
        ensures
            ({
                let rect = old(self).panels@[pi as int].rects.tags;
                let n = if old(self).tag_names@.len() <= occupied@.len() {
                    old(self).tag_names@.len()
                } else {
                    occupied@.len()
                };
                &&& r@ == tag_cells(rect, sizes@, active_tag as int, occupied@, n as int)
                &&& *final(self) == (Bar {
                    tag_extents: final(self).tag_extents,
                    ..*old(self)
                })
                &&& final(self).tag_extents@ == if pi == 0 {
                    extents_of(r@)
                } else {
                    old(self).tag_extents@
                }
            }),
    {
        let rect = self.panels[pi].rects.tags;
        let tag_count = if self.tag_names.len() <= occupied.len() {
            self.tag_names.len()
        } else {
            occupied.len()
        };
        let mut x = rect.x + TAGS_EDGE_PAD;
        let mut cells: Vec<TagCell> = Vec::new();
        let mut extents: Vec<(i32, i32)> = Vec::new();
        let mut i: usize = 0;
        let ghost widths = widths_of(sizes@);
        while i < tag_count
            invariant
                i <= tag_count <= sizes@.len(),
                tag_count <= occupied@.len(),
                rect.x == 0,
                0 <= rect.h,
                sizes_measured(sizes@),
                widths == widths_of(sizes@),
                x == rect.x + TAGS_EDGE_PAD + width_sum(widths, i as int),
                cells@ == tag_cells(rect, sizes@, active_tag as int, occupied@, i as int),
                extents@ == extents_of(cells@),
            decreases tag_count - i,
        {
            let (text_w, text_h) = sizes[i];
            proof {
                assert(widths[i as int] == text_w);
                lemma_width_sum(widths, i as int, widths.len() as int);
                lemma_width_sum(widths, i + 1, widths.len() as int);
            }
            let style = if i == active_tag {
                TagStyle::Focused
            } else if occupied[i] {
                TagStyle::Occupied
            } else {
                TagStyle::Empty
            };
            cells.push(TagCell { x, y: half(rect.h - text_h), w: text_w, style });
            let start = x;
            x += text_w;
            extents.push((start, x));
            assert(extents@ =~= extents_of(cells@));
            i += 1;
        }
        if pi == 0 {
            self.tag_extents = extents;
        }
        cells
    }
}

/// The rectangles of a panel to send to the screen: the whole panel, or each stale region.
pub open spec fn stale_rects(dirty: BarDirty, panel: BarPanel, height: u32) -> Seq<Rect> {
    if dirty.all {
        seq![Rect { x: 0, y: 0, w: panel.width as i32, h: height as i32 }]
    } else {
        region_if(dirty.tags, panel.rects.tags) + region_if(dirty.prompt, panel.rects.prompt)
            + region_if(dirty.title, panel.rects.title) + region_if(
            dirty.clock,
            panel.rects.clock,
        )
    }
}

pub open spec fn region_if(stale: bool, rect: Rect) -> Seq<Rect> {
    if stale {
        seq![rect]
    } else {
        Seq::empty()
    }
}

pub fn rects_to_push(dirty: BarDirty, panel: BarPanel, height: u32) -> (r: Vec<Rect>)
    ensures
        r@ == stale_rects(dirty, panel, height),
{
    let mut out: Vec<Rect> = Vec::new();
    if dirty.all {
        out.push(Rect { x: 0, y: 0, w: panel.width as i32, h: height as i32 });
    } else {
        if dirty.tags {
            out.push(panel.rects.tags);
        }
        if dirty.prompt {
            out.push(panel.rects.prompt);
        }
        if dirty.title {
            out.push(panel.rects.title);
        }
        if dirty.clock {
            out.push(panel.rects.clock);
        }
    }
    assert(out@ =~= stale_rects(dirty, panel, height));
    out
}

/// A tick of the clock alone sends the clock's region and nothing else.
pub proof fn law_clock_tick_sends_clock_only(dirty: BarDirty, panel: BarPanel, height: u32)
    requires
        !dirty.all,
        dirty.clock,
        !dirty.tags,
        !dirty.prompt,
        !dirty.title,
    ensures
        stale_rects(dirty, panel, height) == seq![panel.rects.clock],
{
    assert(stale_rects(dirty, panel, height) =~= seq![panel.rects.clock]);
}

// --- tags ---

#[derive(Debug, Clone, Copy, PartialEq, Eq, Structural)]
pub enum TagStyle {
    Focused,
    Occupied,
    Empty,
}

/// A tag as it is drawn.
#[derive(Debug, Clone, Copy, PartialEq, Eq, Structural)]
pub struct TagCell {
    pub x: i32,
    pub y: i32,
    pub w: i32,
    pub style: TagStyle,
}

pub open spec fn widths_of(sizes: Seq<(i32, i32)>) -> Seq<i32> {
    sizes.map_values(|s: (i32, i32)| s.0)
}

/// Sizes that a font renderer gives: not negative, with a sum that can be numbered.
pub open spec fn sizes_measured(sizes: Seq<(i32, i32)>) -> bool {
    &&& widths_fit(widths_of(sizes))
    &&& forall|i: int| 0 <= i < sizes.len() ==> (#[trigger] sizes[i]).1 >= 0
}

/// Half of a number, without its fraction.
pub open spec fn half_of(n: int) -> int {
    if n >= 0 {
        n / 2
    } else {
        -((-n) / 2)
    }
}

fn half(n: i32) -> (r: i32)
    ensures
        r == half_of(n as int),
{
    if n >= 0 {
        n / 2
    } else {
        let m = -(n as i64);
        (-(m / 2)) as i32
    }
}

/// The first `n` tags as they are drawn, one behind the other and centred in height.
pub open spec fn tag_cells(
    rect: Rect,
    sizes: Seq<(i32, i32)>,
    active: int,
    occupied: Seq<bool>,
    n: int,
) -> Seq<TagCell>
    decreases n,
{
    if n <= 0 {
        Seq::empty()
    } else {
        tag_cells(rect, sizes, active, occupied, n - 1).push(
            TagCell {
                x: (rect.x + TAGS_EDGE_PAD + width_sum(widths_of(sizes), n - 1)) as i32,
                y: half_of(rect.h - sizes[n - 1].1) as i32,
                w: sizes[n - 1].0,
                style: if n - 1 == active {
                    TagStyle::Focused
                } else if occupied[n - 1] {
                    TagStyle::Occupied
                } else {
                    TagStyle::Empty
                },
            },
        )
    }
}

/// Where clicks find the tags.
pub open spec fn extents_of(cells: Seq<TagCell>) -> Seq<(i32, i32)> {
    cells.map_values(|c: TagCell| (c.x, (c.x + c.w) as i32))
}

// --- title and clock ---

/// A place for a text.
#[derive(Debug, Clone, Copy, PartialEq, Eq, Structural)]
pub struct TextPlace {
    pub x: i32,
    pub y: i32,
}

/// The width to which the title is cut, where the panel shows one: on the first panel, of a text
/// that is not empty, in a region with room for it.
pub fn title_width(pi: usize, rect: Rect, center_text: &str) -> (r: Option<i32>)
    requires
        0 <= rect.w,
    ensures
        r == if pi == 0 && center_text@.len() > 0 && rect.w - 40 >= 50 {
            Some((rect.w - 40) as i32)
        } else {
            None
        },
        r == title_room(pi as int, rect, center_text@.len()),
{
    if pi != 0 || text::chars_of(center_text).len() == 0 {
        return None;
    }
    let max_w = rect.w - 40;
    if max_w < 50 {
        return None;
    }
    Some(max_w)
}

/// The place of a title of `text_w` by `text_h` pixels: centred on the panel, but within its
/// region.
pub open spec fn title_at(panel_w: int, rect: Rect, text_w: int, text_h: int) -> (int, int) {
    let centred = half_of(panel_w) - half_of(text_w);
    let from_left = if centred < rect.x + 20 {
        rect.x + 20
    } else {
        centred
    };
    let x = if from_left + text_w > rect.x + rect.w - 20 {
        rect.x + rect.w - 20 - text_w
    } else {
        from_left
    };
    (x, half_of(rect.h - text_h))
}

pub open spec fn is_i32(n: int) -> bool {
    i32::MIN <= n <= i32::MAX
}

/// The sums that placing a title takes can be numbered.
pub open spec fn title_fits(panel_w: int, rect: Rect, text_w: int, text_h: int) -> bool {
    let centred = half_of(panel_w) - half_of(text_w);
    let left = rect.x + 20;
    let right = rect.x + rect.w - 20;
    &&& is_i32(centred)
    &&& is_i32(left)
    &&& is_i32(rect.x + rect.w)
    &&& is_i32(right)
    &&& is_i32(left + text_w)
    &&& is_i32(centred + text_w)
    &&& is_i32(right - text_w)
    &&& is_i32(rect.h - text_h)
}

pub fn title_place(panel_w: i32, rect: Rect, text_w: i32, text_h: i32) -> (r: TextPlace)
    requires
        title_fits(panel_w as int, rect, text_w as int, text_h as int),
    ensures
        (r.x as int, r.y as int) == title_at(
            panel_w as int,
            rect,
            text_w as int,
            text_h as int,
        ),
{
    let mut x = half(panel_w) - half(text_w);
    if x < rect.x + 20 {
        x = rect.x + 20;
    }
    if x + text_w > rect.x + rect.w - 20 {
        x = rect.x + rect.w - 20 - text_w;
    }
    TextPlace { x, y: half(rect.h - text_h) }
}

/// A title that was cut to its width stays inside its region.
pub proof fn law_title_stays_in_region(panel_w: int, rect: Rect, text_w: int, text_h: int)
    requires
        0 <= text_w <= rect.w - 40,
    ensures
        ({
            let x = title_at(panel_w, rect, text_w, text_h).0;
            rect.x + 20 <= x && x + text_w <= rect.x + rect.w - 20
        }),
{
}

/// The place of the clock: flush right, ten pixels from the edge.
pub fn clock_place(panel_w: i32, rect: Rect, clock_w: i32, clock_h: i32) -> (r: TextPlace)
    requires
        is_i32(panel_w - clock_w),
        is_i32(panel_w - clock_w - 10),
        is_i32(rect.h - clock_h),
    ensures
        r.x == panel_w - clock_w - 10,
        r.y == half_of(rect.h - clock_h),
        (r.x as int, r.y as int) == clock_at(
            panel_w as int,
            rect,
            clock_w as int,
            clock_h as int,
        ),
{
    TextPlace { x: panel_w - clock_w - 10, y: half(rect.h - clock_h) }
}

/// A character as markup writes it.
pub open spec fn escaped_char(c: char) -> Seq<char> {
    if c == '&' {
        "&amp;"@
    } else if c == '<' {
        "&lt;"@
    } else if c == '>' {
        "&gt;"@
    } else if c == '"' {
        "&quot;"@
    } else if c == '\'' {
        "&apos;"@
    } else {
        seq![c]
    }
}

/// A text as markup writes it.
pub open spec fn escaped(s: Seq<char>) -> Seq<char>
    decreases s.len(),
{
    if s.len() == 0 {
        Seq::empty()
    } else {
        escaped(s.drop_last()) + escaped_char(s.last())
    }
}

pub fn escape_markup(s: &str) -> (r: String)
    ensures
        r@ == escaped(s@),
{
    let chars = text::chars_of(s);
    let mut out = String::new();
    let mut i: usize = 0;
    assert(s@.take(0) =~= Seq::empty());
    while i < chars.len()
        invariant
            chars@ == s@,
            i <= chars.len(),
            out@ == escaped(s@.take(i as int)),
        decreases chars.len() - i,
    {
        let c = chars[i];
        proof {
            assert(s@.take(i + 1).drop_last() =~= s@.take(i as int));
            assert(s@.take(i + 1).last() == c);
        }
        if c == '&' {
            out.append("&amp;");
        } else if c == '<' {
            out.append("&lt;");
        } else if c == '>' {
            out.append("&gt;");
        } else if c == '"' {
            out.append("&quot;");
        } else if c == '\'' {
            out.append("&apos;");
        } else {
            out.push(c);
            assert(out@ =~= escaped(s@.take(i as int)) + seq![c]);
        }
        i += 1;
    }
    assert(s@.take(i as int) =~= s@);
    out
}

/// The markup of the clock: digits of one width round the escaped text.
pub fn clock_markup(clock_text: &str) -> (r: String)
    ensures
        r@ == "<span font_features=\"tnum\">"@ + escaped(clock_text@) + "</span>"@,
{
    let mut out = String::new();
    out.append("<span font_features=\"tnum\">");
    out.append(escape_markup(clock_text).as_str());
    out.append("</span>");
    assert(out@ =~= "<span font_features=\"tnum\">"@ + escaped(clock_text@) + "</span>"@);
    out
}

// --- pixels ---

/// Where row `row` of a rectangle begins in an image of `stride` bytes a row.
pub open spec fn row_start(rect: Rect, stride: int, row: int) -> int {
    (rect.y + row) * stride + rect.x * 4
}

/// The bytes of the first `n` rows of a rectangle.
pub open spec fn rect_bytes(full: Seq<u8>, rect: Rect, stride: int, n: int) -> Seq<u8>
    decreases n,
{
    if n <= 0 {
        Seq::empty()
    } else {
        rect_bytes(full, rect, stride, n - 1) + full.subrange(
            row_start(rect, stride, n - 1),
            row_start(rect, stride, n - 1) + rect.w * 4,
        )
    }
}

/// Cuts a rectangle out of an image, row by row. An empty rectangle has nothing to send.
pub fn region_bytes(full: &[u8], rect: Rect, stride: usize) -> (r: Option<Vec<u8>>)
    requires
        rect.w > 0 && rect.h > 0 ==> rect.x >= 0 && rect.y >= 0 && row_start(
            rect,
            stride as int,
            rect.h - 1,
        ) + rect.w * 4 <= full@.len(),
    ensures
        match r {
            Some(b) => rect.w > 0 && rect.h > 0 && b@ == rect_bytes(
                full@,
                rect,
                stride as int,
                rect.h as int,
            ),
            None => rect.w <= 0 || rect.h <= 0,
        },
{
    if rect.w <= 0 || rect.h <= 0 {
        return None;
    }
    let total = full.len();
    let mut buf: Vec<u8> = Vec::new();
    let mut row: usize = 0;
    while row < rect.h as usize
        invariant
            rect.w > 0,
            rect.h > 0,
            rect.x >= 0,
            rect.y >= 0,
            row <= rect.h,
            total == full@.len(),
            row_start(rect, stride as int, rect.h - 1) + rect.w * 4 <= total,
            buf@ == rect_bytes(full@, rect, stride as int, row as int),
        decreases rect.h - row,
    {
        proof {
            let s = stride as int;
            assert(0 <= (rect.y + row) * s <= (rect.y + rect.h - 1) * s) by (nonlinear_arith)
                requires
                    0 <= rect.y,
                    0 <= row <= rect.h - 1,
                    0 <= s,
            ;
            assert(row_start(rect, s, row as int) + rect.w * 4 <= total);
        }
        let row_bytes = rect.w as usize * 4;
        let start = (rect.y as usize + row) * stride + rect.x as usize * 4;
        buf.extend_from_slice(&full[start..start + row_bytes]);
        assert(buf@ =~= rect_bytes(full@, rect, stride as int, row + 1));
        row += 1;
    }
    Some(buf)
}

// --- the prompt ---

/// The prompt as mathematics.
#[verifier::ext_equal]
pub struct PromptView {
    pub input: Seq<char>,
    pub cursor: int,
    pub completion: Option<Seq<char>>,
}

pub open spec fn text_option(t: Option<String>) -> Option<Seq<char>> {
    match t {
        Some(s) => Some(s@),
        None => None,
    }
}

pub open spec fn prompt_view(p: Option<PromptState>) -> Option<PromptView> {
    match p {
        Some(p) => Some(
            PromptView {
                input: p.input@,
                cursor: p.cursor as int,
                completion: text_option(p.completion),
            },
        ),
        None => None,
    }
}

/// The first of the names, from `i` on, that begins with `input`.
pub open spec fn completion_from(
    names: Seq<Seq<char>>,
    input: Seq<char>,
    i: int,
) -> Option<Seq<char>>
    decreases names.len() - i,
{
    if i >= names.len() {
        None
    } else if text::starts_with(names[i], input) {
        Some(names[i])
    } else {
        completion_from(names, input, i + 1)
    }
}

/// The name that completes `input`; none where it is empty.
pub open spec fn completion_of(names: Seq<Seq<char>>, input: Seq<char>) -> Option<Seq<char>> {
    if input.len() == 0 {
        None
    } else {
        completion_from(names, input, 0)
    }
}

pub fn find_completion(executables: &Vec<String>, input: &str) -> (r: Option<String>)
    ensures
        text_option(r) == completion_of(text::texts(executables@), input@),
{
    let wanted = text::chars_of(input);
    if wanted.len() == 0 {
        return None;
    }
    let mut i: usize = 0;
    let ghost names = text::texts(executables@);
    while i < executables.len()
        invariant
            i <= executables.len(),
            names == text::texts(executables@),
            wanted@ == input@,
            wanted@.len() > 0,
            completion_from(names, input@, 0) == completion_from(names, input@, i as int),
        decreases executables.len() - i,
    {
        assert(names[i as int] == executables@[i as int]@);
        let name = text::chars_of(executables[i].as_str());
        if text::chars_start_with(name.as_slice(), wanted.as_slice()) {
            return Some(executables[i].clone());
        }
        i += 1;
    }
    None
}

/// A completion begins with what it completes.
pub proof fn law_completion_extends_input(names: Seq<Seq<char>>, input: Seq<char>, i: int)
    requires
        0 <= i,
    ensures
        completion_from(names, input, i) matches Some(c) ==> text::starts_with(c, input),
    decreases names.len() - i,
{
    if i < names.len() && !text::starts_with(names[i], input) {
        law_completion_extends_input(names, input, i + 1);
    }
}

/// The command that a key gives: the text, at the return key, unless it is empty.
pub open spec fn prompt_command(p: PromptView, keysym: u32) -> Option<Seq<char>> {
    if keysym == KEY_RETURN && p.input.len() > 0 {
        Some(p.input)
    } else {
        None
    }
}

/// The key does not take back a part of a character: the backspace key takes back one byte.
pub open spec fn key_fits(p: PromptView, keysym: u32) -> bool {
    keysym == KEY_BACKSPACE && p.cursor > 0 ==> text::is_boundary(p.input, p.cursor - 1)
}

/// The prompt after a key; `None` where that closes it.
pub open spec fn prompt_after(p: PromptView, names: Seq<Seq<char>>, keysym: u32) -> Option<
    PromptView,
> {
    if keysym == KEY_RETURN || keysym == KEY_ESCAPE {
        None
    } else if keysym == KEY_TAB {
        Some(
            match p.completion {
                Some(c) => PromptView {
                    input: c,
                    cursor: text::byte_len(c),
                    completion: completion_of(names, c),
                },
                None => p,
            },
        )
    } else if keysym == KEY_BACKSPACE {
        if p.cursor > 0 {
            let input = p.input.remove(text::chars_within(p.input, p.cursor - 1));
            Some(
                PromptView {
                    input,
                    cursor: p.cursor - 1,
                    completion: completion_of(names, input),
                },
            )
        } else if p.input.len() == 0 {
            Some(PromptView { completion: None, ..p })
        } else {
            Some(p)
        }
    } else if 0x20 <= keysym <= 0x7e {
        let input = p.input.insert(text::chars_within(p.input, p.cursor), keysym as char);
        Some(
            PromptView { input, cursor: p.cursor + 1, completion: completion_of(names, input) },
        )
    } else {
        Some(p)
    }
}

impl PromptState {
    /// The cursor stands between two characters of the text, and a completion begins with the
    /// text.
    pub open spec fn wf(&self) -> bool {
        &&& text::is_boundary(self.input@, self.cursor as int)
        &&& text_option(self.completion) matches Some(c) ==> text::starts_with(c, self.input@)
    }

    fn complete(&mut self, executables: &Vec<String>)
        requires
            text::is_boundary(old(self).input@, old(self).cursor as int),
        ensures
            final(self).input == old(self).input,
            final(self).cursor == old(self).cursor,
            text_option(final(self).completion) == completion_of(
                text::texts(executables@),
                old(self).input@,
            ),
            final(self).wf(),
    {
        self.completion = find_completion(executables, self.input.as_str());
        proof {
            law_completion_extends_input(text::texts(executables@), self.input@, 0);
        }
    }

    fn accept_completion(&mut self, executables: &Vec<String>)
        requires
            old(self).wf(),
        ensures
            final(self).wf(),
            prompt_view(Some(*final(self))) == prompt_after(
                prompt_view(Some(*old(self)))->0,
                text::texts(executables@),
                KEY_TAB,
            ),
    {
        if let Some(c) = self.completion.take() {
            self.cursor = text::bytes_in(c.as_str());
            proof {
                text::lemma_boundary(c@, c@.len() as int);
                assert(c@.take(c@.len() as int) =~= c@);
            }
            self.input = c;
            self.complete(executables);
        }
    }

    fn backspace(&mut self, executables: &Vec<String>)
        requires
            old(self).wf(),
            key_fits(prompt_view(Some(*old(self)))->0, KEY_BACKSPACE),
        ensures
            final(self).wf(),
            prompt_view(Some(*final(self))) == prompt_after(
                prompt_view(Some(*old(self)))->0,
                text::texts(executables@),
                KEY_BACKSPACE,
            ),
    {
        if self.cursor > 0 {
            let mut chars = text::chars_of(self.input.as_str());
            let at = text::count_within(chars.as_slice(), self.cursor - 1);
            let ghost before = chars@;
            proof {
                lemma_char_before(before, self.cursor as int);
            }
            chars.remove(at);
            self.input = text::string_of(chars.as_slice());
            self.cursor = self.cursor - 1;
            proof {
                assert(self.input@.take(at as int) =~= before.take(at as int));
                text::lemma_boundary(self.input@, at as int);
            }
            self.complete(executables);
        } else if text::chars_of(self.input.as_str()).len() == 0 {
            self.completion = None;
        }
    }

    fn insert(&mut self, c: char, executables: &Vec<String>)
        requires
            old(self).wf(),
            0x20 <= c as u32 <= 0x7e,
        ensures
            final(self).wf(),
            prompt_view(Some(*final(self))) == prompt_after(
                prompt_view(Some(*old(self)))->0,
                text::texts(executables@),
                c as u32,
            ),
    {
        let mut chars = text::chars_of(self.input.as_str());
        let at = text::count_within(chars.as_slice(), self.cursor);
        let ghost before = chars@;
        chars.insert(at, c);
        self.input = text::string_of(chars.as_slice());
        let total = text::bytes_in(self.input.as_str());
        proof {
            let after = self.input@;
            assert(after.take(at as int) =~= before.take(at as int));
            text::lemma_byte_step(after, at as int);
            text::lemma_width(c);
            text::lemma_boundary(after, at + 1);
            assert(self.cursor + 1 <= total);
        }
        self.cursor = self.cursor + 1;
        self.complete(executables);
    }

    /// The text that is drawn: the input behind its sign.
    pub fn shown(&self) -> (r: String)
        ensures
            r@ == "> "@ + self.input@,
    {
        let mut out = String::new();
        out.append("> ");
        out.append(self.input.as_str());
        assert(out@ =~= "> "@ + self.input@);
        out
    }

    /// The part of the drawn text that stands before the cursor.
    pub fn before_cursor(&self) -> (r: String)
        requires
            self.wf(),
        ensures
            r@ == "> "@ + self.input@.take(text::chars_within(self.input@, self.cursor as int)),
    {
        let chars = text::chars_of(self.input.as_str());
        let n = text::count_within(chars.as_slice(), self.cursor);
        let head = text::string_of(&chars.as_slice()[0..n]);
        let mut out = String::new();
        out.append("> ");
        out.append(head.as_str());
        assert(out@ =~= "> "@ + self.input@.take(n as int));
        out
    }

    /// What a completion would add to the input, where it adds anything.
    pub fn ghost_text(&self) -> (r: Option<String>)
        requires
            self.wf(),
        ensures
            match r {
                Some(g) => text_option(self.completion) matches Some(c) && g@.len() > 0
                    && self.input@ + g@ == c,
                None => text_option(self.completion) matches Some(c) ==> c == self.input@,
            },
    {
        let c = match &self.completion {
            Some(c) => c,
            None => return None,
        };
        let full = text::chars_of(c.as_str());
        let n = text::chars_of(self.input.as_str()).len();
        if full.len() > n {
            let rest = text::string_of(&full.as_slice()[n..full.len()]);
            assert(self.input@ + rest@ =~= c@);
            return Some(rest);
        }
        assert(c@.take(n as int) =~= c@);
        None
    }
}

/// Accepting a completion and then pressing return runs the completion.
pub proof fn law_accepted_completion_is_run(p: PromptView, names: Seq<Seq<char>>)
    requires
        p.completion matches Some(c) && c.len() > 0,
    ensures
        prompt_after(p, names, KEY_TAB) matches Some(q) && prompt_command(q, KEY_RETURN)
            == p.completion,
{
}

/// Where a character begins one byte before the boundary `n`, it is the one that ends there.
proof fn lemma_char_before(s: Seq<char>, n: int)
    requires
        n > 0,
        text::is_boundary(s, n),
        text::is_boundary(s, n - 1),
    ensures
        ({
            let k = text::chars_within(s, n - 1);
            &&& 0 <= k < s.len()
            &&& text::chars_within(s, n) == k + 1
            &&& text::byte_len(s.take(k)) == n - 1
            &&& text::width(s[k]) == 1
        }),
{
    text::lemma_chars_within(s, n, 0);
    text::lemma_chars_within(s, n - 1, 0);
    let a = text::chars_within(s, n);
    let k = text::chars_within(s, n - 1);
    if a <= k {
        text::lemma_byte_mono(s, a, k);
    } else {
        text::lemma_byte_mono(s, k, a);
        text::lemma_byte_step(s, k);
        text::lemma_byte_mono(s, k + 1, a);
    }
}

/// The backspace key takes back a typed character.
pub proof fn law_backspace_undoes_typing(p: PromptView, names: Seq<Seq<char>>, keysym: u32)
    requires
        text::is_boundary(p.input, p.cursor),
        0x20 <= keysym <= 0x7e,
    ensures
        ({
            &&& prompt_after(p, names, keysym) matches Some(q)
            &&& key_fits(q, KEY_BACKSPACE)
            &&& prompt_after(q, names, KEY_BACKSPACE) matches Some(b)
            &&& b.input == p.input
            &&& b.cursor == p.cursor
        }),
{
    let q = prompt_after(p, names, keysym)->0;
    let k = text::chars_within(p.input, p.cursor);
    text::lemma_chars_within(p.input, p.cursor, 0);
    text::lemma_boundary(p.input, k);
    assert(q.input.take(k) =~= p.input.take(k));
    text::lemma_boundary(q.input, k);
    assert(q.input.remove(k) =~= p.input);
}

/// The prompt after the keys, one after the other; `None` once one of them has closed it.
pub open spec fn after_keys(
    p: Option<PromptView>,
    names: Seq<Seq<char>>,
    keys: Seq<u32>,
) -> Option<PromptView>
    decreases keys.len(),
{
    if keys.len() == 0 {
        p
    } else {
        match after_keys(p, names, keys.drop_last()) {
            Some(q) => prompt_after(q, names, keys.last()),
            None => None,
        }
    }
}

/// A prompt as it is opened.
pub open spec fn opened() -> PromptView {
    PromptView { input: Seq::empty(), cursor: 0, completion: None }
}

/// None of the keys takes back a part of a character.
pub open spec fn keys_fit(names: Seq<Seq<char>>, keys: Seq<u32>) -> bool
    decreases keys.len(),
{
    keys.len() == 0 || (keys_fit(names, keys.drop_last()) && (after_keys(
        Some(opened()),
        names,
        keys.drop_last(),
    ) matches Some(q) ==> key_fits(q, keys.last())))
}

/// The cursor is at the end of the input, and the completion is that of the input.
pub open spec fn settled(p: PromptView, names: Seq<Seq<char>>) -> bool {
    p.cursor == text::byte_len(p.input) && p.completion == completion_of(names, p.input)
}

/// A key keeps a prompt settled.
proof fn lemma_key_settles(p: PromptView, names: Seq<Seq<char>>, keysym: u32)
    requires
        settled(p, names),
        key_fits(p, keysym),
    ensures
        prompt_after(p, names, keysym) matches Some(q) ==> settled(q, names),
{
    let n = p.input.len() as int;
    assert(p.input.take(n) =~= p.input);
    text::lemma_boundary(p.input, n);
    if keysym == KEY_BACKSPACE && p.cursor > 0 {
        lemma_char_before(p.input, p.cursor);
        assert(p.input.remove(n - 1) =~= p.input.take(n - 1));
    } else if keysym == KEY_BACKSPACE {
        if n > 0 {
            text::lemma_byte_mono(p.input, 0, n);
        }
    } else if 0x20 <= keysym <= 0x7e {
        assert(p.input.insert(n, keysym as char) =~= p.input.push(keysym as char));
        text::lemma_encode_push(p.input, keysym as char);
        text::lemma_width(keysym as char);
    }
}

/// Whatever keys a prompt has had since it was opened, its cursor stands at the end of the input
/// and its completion is that of the input.
pub proof fn law_prompt_stays_settled(names: Seq<Seq<char>>, keys: Seq<u32>)
    requires
        keys_fit(names, keys),
    ensures
        after_keys(Some(opened()), names, keys) matches Some(p) ==> settled(p, names),
    decreases keys.len(),
{
    if keys.len() > 0 {
        law_prompt_stays_settled(names, keys.drop_last());
        if let Some(q) = after_keys(Some(opened()), names, keys.drop_last()) {
            lemma_key_settles(q, names, keys.last());
        }
    }
}

/// Where the names are ASCII, no key takes back a part of a character, and the input is ASCII:
/// whatever keys the prompt has had, the cursor stands behind the last character.
pub proof fn law_prompt_stays_ascii(names: Seq<Seq<char>>, keys: Seq<u32>)
    requires
        forall|i: int| 0 <= i < names.len() ==> vstd::utf8::is_ascii_chars(#[trigger] names[i]),
    ensures
        keys_fit(names, keys),
        after_keys(Some(opened()), names, keys) matches Some(p) ==> vstd::utf8::is_ascii_chars(
            p.input,
        ) && p.cursor == p.input.len() && p.completion == completion_of(names, p.input),
    decreases keys.len(),
{
    if keys.len() > 0 {
        let last = keys.drop_last();
        law_prompt_stays_ascii(names, last);
        if let Some(q) = after_keys(Some(opened()), names, last) {
            vstd::utf8::is_ascii_chars_encode_utf8(q.input);
            if q.cursor > 0 {
                let n = q.input.len() as int;
                assert(q.input.take(n - 1).len() == n - 1);
                assert(vstd::utf8::is_ascii_chars(q.input.take(n - 1))) by {
                    assert forall|i: int| 0 <= i < n - 1 implies '\0'
                        <= #[trigger] q.input.take(n - 1)[i] <= '\u{7f}' by {
                        assert(q.input[i] == q.input.take(n - 1)[i]);
                    }
                }
                vstd::utf8::is_ascii_chars_encode_utf8(q.input.take(n - 1));
                text::lemma_boundary(q.input, n - 1);
            }
            assert(key_fits(q, keys.last()));
        }
        law_prompt_stays_settled(names, keys);
        law_prompt_stays_settled(names, last);
        if let Some(p) = after_keys(Some(opened()), names, keys) {
            let q = after_keys(Some(opened()), names, last)->0;
            let n = q.input.len() as int;
            assert(q.input.take(n) =~= q.input);
            text::lemma_boundary(q.input, n);
            lemma_completion_is_name(names, q.input, 0);
            if keys.last() == KEY_BACKSPACE && q.cursor > 0 {
                lemma_char_before(q.input, q.cursor);
            }
            assert forall|i: int| 0 <= i < p.input.len() implies '\0' <= #[trigger] p.input[i]
                <= '\u{7f}' by {
                if keys.last() == KEY_BACKSPACE && q.cursor > 0 {
                    assert(p.input[i] == q.input[i]);
                } else if 0x20 <= keys.last() <= 0x7e && i < q.input.len() {
                    assert(p.input[i] == q.input[i]);
                }
            }
            vstd::utf8::is_ascii_chars_encode_utf8(p.input);
        }
    }
}

proof fn lemma_completion_is_name(names: Seq<Seq<char>>, input: Seq<char>, i: int)
    requires
        0 <= i,
    ensures
        completion_from(names, input, i) matches Some(c) ==> exists|j: int|
            0 <= j < names.len() && #[trigger] names[j] == c,
    decreases names.len() - i,
{
    if i < names.len() && !text::starts_with(names[i], input) {
        lemma_completion_is_name(names, input, i + 1);
    }
}

/// After any keys, the next one closes the prompt exactly where it is return or escape, and gives
/// a command, the input, exactly where it is return and there is an input.
pub proof fn law_only_return_runs(names: Seq<Seq<char>>, keys: Seq<u32>, keysym: u32)
    ensures
        after_keys(Some(opened()), names, keys) matches Some(q) ==> {
            &&& (after_keys(Some(opened()), names, keys.push(keysym)) is None) == (keysym
                == KEY_RETURN || keysym == KEY_ESCAPE)
            &&& (prompt_command(q, keysym) is Some) == (keysym == KEY_RETURN && q.input.len() > 0)
            &&& prompt_command(q, keysym) matches Some(cmd) ==> cmd == q.input
        },
{
    assert(keys.push(keysym).drop_last() =~= keys);
}

// --- executables ---

/// The directories of a search path.
pub fn path_dirs(path: &str) -> (r: Vec<Vec<char>>)
    ensures
        text::views(r@) == text::split(path@, ':'),
{
    let chars = text::chars_of(path);
    text::split_chars(chars.as_slice(), ':')
}

/// Whether a directory entry can be run: a file that someone may execute.
pub fn is_executable(is_file: bool, mode: u32) -> (r: bool)
    ensures
        r == (is_file && mode & 0o111 != 0),
{
    is_file && mode & 0o111 != 0
}

/// Whether `a` comes before `b`, character by character.
pub open spec fn text_before(a: Seq<char>, b: Seq<char>) -> bool
    decreases a.len(),
{
    if b.len() == 0 {
        false
    } else if a.len() == 0 {
        true
    } else {
        a[0] < b[0] || (a[0] == b[0] && text_before(a.skip(1), b.skip(1)))
    }
}

pub open spec fn text_in_order(a: Seq<char>, b: Seq<char>) -> bool {
    a == b || text_before(a, b)
}

/// Sorts strings with [`slice::sort_unstable`]: the strings stay the same, each as often as it
/// was there, and come in the order of their characters.
#[verifier::external_body]
fn sort_texts(v: &mut Vec<String>)
    ensures
        text::texts(final(v)@).to_multiset() == text::texts(old(v)@).to_multiset(),
        forall|i: int, j: int|
            0 <= i < j < final(v)@.len() ==> text_in_order(
                #[trigger] final(v)@[i]@,
                #[trigger] final(v)@[j]@,
            ),
{
    v.sort_unstable();
}

proof fn lemma_before_asymmetric(a: Seq<char>, b: Seq<char>)
    requires
        text_before(a, b),
    ensures
        !text_before(b, a),
        a != b,
    decreases a.len(),
{
    if a.len() > 0 && a[0] == b[0] {
        lemma_before_asymmetric(a.skip(1), b.skip(1));
    }
}

/// Each name comes strictly before those behind it.
pub open spec fn strictly_sorted(names: Seq<Seq<char>>) -> bool {
    forall|i: int, j: int|
        0 <= i < j < names.len() ==> text_before(#[trigger] names[i], #[trigger] names[j])
}

/// The names of the executables that were found: in order, each once.
pub fn executable_names(found: Vec<String>) -> (r: Vec<String>)
    ensures
        strictly_sorted(text::texts(r@)),
        forall|t: Seq<char>|
            #[trigger] text::texts(r@).contains(t) == text::texts(found@).contains(t),
{
    let ghost given = text::texts(found@);
    let mut names = found;
    sort_texts(&mut names);
    let ghost sorted = text::texts(names@);
    proof {
        given.to_multiset_ensures();
        sorted.to_multiset_ensures();
        assert forall|t: Seq<char>| #[trigger] sorted.contains(t) == given.contains(t) by {
            assert(sorted.to_multiset().count(t) == given.to_multiset().count(t));
        }
    }
    let mut out: Vec<String> = Vec::new();
    let mut i: usize = 0;
    while i < names.len()
        invariant
            i <= names.len(),
            sorted == text::texts(names@),
            forall|a: int, b: int|
                0 <= a < b < names@.len() ==> text_in_order(
                    #[trigger] names@[a]@,
                    #[trigger] names@[b]@,
                ),
            (i == 0) == (out@.len() == 0),
            i > 0 ==> out@[out@.len() - 1]@ == names@[i - 1]@,
            forall|k: int, l: int|
                0 <= k < l < out@.len() ==> text_before(
                    #[trigger] out@[k]@,
                    #[trigger] out@[l]@,
                ),
            forall|k: int, b: int|
                0 <= k < out@.len() && i <= b < names@.len() ==> text_in_order(
                    #[trigger] out@[k]@,
                    #[trigger] names@[b]@,
                ),
            forall|k: int|
                0 <= k < out@.len() ==> sorted.contains(#[trigger] out@[k]@),
            forall|a: int|
                0 <= a < i ==> text::texts(out@).contains(#[trigger] names@[a]@),
        decreases names.len() - i,
    {
        let fresh = out.len() == 0 || !text::same_text(
            out[out.len() - 1].as_str(),
            names[i].as_str(),
        );
        let ghost before = out@;
        if fresh {
            proof {
                assert forall|k: int| 0 <= k < out@.len() implies text_before(
                    #[trigger] out@[k]@,
                    names@[i as int]@,
                ) by {
                    let last = out@.len() - 1;
                    assert(text_in_order(out@[k]@, names@[i as int]@));
                    assert(text_in_order(out@[last]@, names@[i as int]@));
                    if k < last && out@[k]@ == names@[i as int]@ {
                        assert(text_before(out@[k]@, out@[last]@));
                        lemma_before_asymmetric(out@[k]@, out@[last]@);
                    }
                }
                assert(sorted[i as int] == names@[i as int]@);
                assert(sorted.contains(names@[i as int]@));
            }
            out.push(names[i].clone());
        }
        proof {
            let now = text::texts(out@);
            assert forall|a: int| 0 <= a < i + 1 implies now.contains(
                #[trigger] names@[a]@,
            ) by {
                if a < i {
                    let k = text::texts(before).index_of(names@[a]@);
                    assert(text::texts(before)[k] == names@[a]@);
                    assert(now[k] == names@[a]@);
                } else {
                    assert(now[now.len() - 1] == names@[i as int]@);
                }
            }
        }
        i += 1;
    }
    proof {
        let kept = text::texts(out@);
        assert forall|t: Seq<char>| #[trigger] kept.contains(t) == given.contains(t) by {
            if kept.contains(t) {
                let k = kept.index_of(t);
                assert(out@[k]@ == t);
                assert(sorted.contains(t));
            }
            if given.contains(t) {
                assert(sorted.contains(t));
                let a = sorted.index_of(t);
                assert(names@[a]@ == t);
            }
        }
        assert forall|k: int, l: int| 0 <= k < l < kept.len() implies text_before(
            #[trigger] kept[k],
            #[trigger] kept[l],
        ) by {
            assert(text_before(out@[k]@, out@[l]@));
        }
    }
    out
}

// --- laws of the bar ---

/// Where a panel is narrow, the clock comes first, the tags second, the prompt third, and the title
/// has what is left: no region gets more than it wants, and one that gets less leaves nothing to
/// those behind it. All regions are as high as the panel.
pub proof fn law_narrow_panel_serves_in_order(panel_w: int, panel_h: i32, tags_w: int)
    requires
        0 <= panel_w <= i32::MAX,
        0 <= tags_w,
    ensures
        ({
            let r = regions(panel_w, panel_h, tags_w);
            &&& r.clock.w <= 400 && r.tags.w <= tags_w && r.prompt.w <= 600
            &&& r.clock.w < 400 ==> r.tags.w == 0 && r.prompt.w == 0 && r.title.w == 0
            &&& r.tags.w < tags_w ==> r.prompt.w == 0 && r.title.w == 0
            &&& r.prompt.w < 600 ==> r.title.w == 0
            &&& r.tags.w + r.prompt.w + r.title.w + r.clock.w == panel_w
            &&& r.tags.h == panel_h && r.prompt.h == panel_h && r.title.h == panel_h && r.clock.h
                == panel_h
            &&& r.tags.y == 0 && r.prompt.y == 0 && r.title.y == 0 && r.clock.y == 0
        }),
{
}

/// What is pushed is what is stale: a stale region is pushed, a fresh one is not, and where all is
/// stale the whole panel is pushed at once.
pub proof fn law_stale_regions_are_pushed(dirty: BarDirty, panel: BarPanel, height: u32)
    requires
        height <= i32::MAX,
        panel.width <= i32::MAX,
    ensures
        ({
            let r = stale_rects(dirty, panel, height);
            let count: int = (if dirty.tags {
                1int
            } else {
                0
            }) + (if dirty.prompt {
                1int
            } else {
                0
            }) + (if dirty.title {
                1int
            } else {
                0
            }) + (if dirty.clock {
                1int
            } else {
                0
            });
            &&& dirty.all ==> r.len() == 1 && r[0].x == 0 && r[0].y == 0 && r[0].w == panel.width
                && r[0].h == height
            &&& !dirty.all ==> r.len() == count
            &&& !dirty.all && dirty.tags ==> r.contains(panel.rects.tags)
            &&& !dirty.all && dirty.prompt ==> r.contains(panel.rects.prompt)
            &&& !dirty.all && dirty.title ==> r.contains(panel.rects.title)
            &&& !dirty.all && dirty.clock ==> r.contains(panel.rects.clock)
            &&& !dirty.all ==> forall|k: int|
                0 <= k < r.len() ==> (dirty.tags && #[trigger] r[k] == panel.rects.tags) || (
                dirty.prompt && r[k] == panel.rects.prompt) || (dirty.title && r[k]
                    == panel.rects.title) || (dirty.clock && r[k] == panel.rects.clock)
        }),
{
    let a = region_if(dirty.tags, panel.rects.tags);
    let b = region_if(dirty.prompt, panel.rects.prompt);
    let c = region_if(dirty.title, panel.rects.title);
    let d = region_if(dirty.clock, panel.rects.clock);
    let r = stale_rects(dirty, panel, height);
    if !dirty.all {
        if dirty.tags {
            assert(r[0] == panel.rects.tags);
        }
        if dirty.prompt {
            assert(r[a.len() as int] == panel.rects.prompt);
        }
        if dirty.title {
            assert(r[(a.len() + b.len()) as int] == panel.rects.title);
        }
        if dirty.clock {
            assert(r[(a.len() + b.len() + c.len()) as int] == panel.rects.clock);
        }
    }
}

proof fn lemma_cells(
    rect: Rect,
    sizes: Seq<(i32, i32)>,
    active: int,
    occupied: Seq<bool>,
    n: int,
    i: int,
)
    requires
        0 <= i < n,
    ensures
        tag_cells(rect, sizes, active, occupied, n).len() == n,
        tag_cells(rect, sizes, active, occupied, n)[i] == (TagCell {
            x: (rect.x + TAGS_EDGE_PAD + width_sum(widths_of(sizes), i)) as i32,
            y: half_of(rect.h - sizes[i].1) as i32,
            w: sizes[i].0,
            style: if i == active {
                TagStyle::Focused
            } else if occupied[i] {
                TagStyle::Occupied
            } else {
                TagStyle::Empty
            },
        }),
    decreases n,
{
    if i < n - 1 {
        lemma_cells(rect, sizes, active, occupied, n - 1, i);
    } else if n > 1 {
        lemma_cells(rect, sizes, active, occupied, n - 1, 0);
    }
}

/// Tags stand side by side: the first begins behind the padding, each further one where the one
/// before it ends, and the last ends the padding before the end of a strip of the strip's width.
/// Each is as wide as its text and has the style of its tag: focused where it is the active one,
/// else by whether windows are on it.
pub proof fn law_tags_stand_side_by_side(
    rect: Rect,
    sizes: Seq<(i32, i32)>,
    active: int,
    occupied: Seq<bool>,
    i: int,
)
    requires
        sizes_measured(sizes),
        rect.x == 0,
        0 <= i < sizes.len(),
    ensures
        ({
            let cells = tag_cells(rect, sizes, active, occupied, sizes.len() as int);
            let c = cells[i];
            &&& cells.len() == sizes.len()
            &&& c.w == sizes[i].0
            &&& i == 0 ==> c.x == 20
            &&& i > 0 ==> c.x == cells[i - 1].x + cells[i - 1].w
            &&& i == sizes.len() - 1 ==> c.x + c.w + 20 == 40 + width_sum(
                widths_of(sizes),
                sizes.len() as int,
            )
            &&& c.style == TagStyle::Focused <==> i == active
            &&& c.style == TagStyle::Occupied <==> i != active && occupied[i]
            &&& c.style == TagStyle::Empty <==> i != active && !occupied[i]
            &&& extents_of(cells)[i] == (c.x, (c.x + c.w) as i32)
        }),
{
    let n = sizes.len() as int;
    let w = widths_of(sizes);
    lemma_cells(rect, sizes, active, occupied, n, i);
    lemma_width_sum(w, i, n);
    lemma_width_sum(w, i + 1, n);
    assert(w[i] == sizes[i].0);
    if i > 0 {
        lemma_cells(rect, sizes, active, occupied, n, i - 1);
        lemma_width_sum(w, i - 1, n);
        assert(w[i - 1] == sizes[i - 1].0);
    }
}

/// The tag under the pointer is the one that is drawn there: of the extents that a strip leaves
/// behind, a point within a tag's text lies in that tag's extent and in no other's.
pub proof fn law_point_lies_on_its_tag(
    rect: Rect,
    sizes: Seq<(i32, i32)>,
    active: int,
    occupied: Seq<bool>,
    x: int,
    i: int,
    j: int,
)
    requires
        sizes_measured(sizes),
        rect.x == 0,
        0 <= i < sizes.len(),
        0 <= j < sizes.len(),
    ensures
        ({
            let cells = tag_cells(rect, sizes, active, occupied, sizes.len() as int);
            let e = extents_of(cells);
            &&& e[i].0 <= x < e[i].1 <==> cells[i].x <= x < cells[i].x + cells[i].w
            &&& e[i].0 <= x < e[i].1 && e[j].0 <= x < e[j].1 ==> i == j
        }),
{
    let n = sizes.len() as int;
    let w = widths_of(sizes);
    lemma_cells(rect, sizes, active, occupied, n, i);
    lemma_cells(rect, sizes, active, occupied, n, j);
    lemma_width_sum(w, i, n);
    lemma_width_sum(w, j, n);
    lemma_width_sum(w, i + 1, n);
    lemma_width_sum(w, j + 1, n);
    assert(w[i] == sizes[i].0);
    assert(w[j] == sizes[j].0);
    if i < j {
        lemma_width_sum(w, i + 1, j);
    } else if j < i {
        lemma_width_sum(w, j + 1, i);
    }
}

/// Half of a length, on either side of zero, falls short of it by less than one.
pub proof fn law_text_is_centred(outer: int, inner: int)
    ensures
        ({
            let y = half_of(outer - inner);
            &&& -1 <= outer - inner - 2 * y <= 1
            &&& outer >= inner ==> y >= 0 && y + inner <= outer
            &&& half_of(inner - outer) == -y
        }),
{
}

/// A title is centred on its panel where its region allows it, and else as near to that as its
/// region allows.
pub proof fn law_title_is_centred_where_it_can_be(
    panel_w: int,
    rect: Rect,
    text_w: int,
    text_h: int,
)
    requires
        0 <= text_w <= rect.w - 40,
    ensures
        ({
            let (x, y) = title_at(panel_w, rect, text_w, text_h);
            let centred = half_of(panel_w) - half_of(text_w);
            &&& rect.x + 20 <= centred && centred + text_w <= rect.x + rect.w - 20 ==> x == centred
            &&& centred < rect.x + 20 ==> x == rect.x + 20
            &&& centred + text_w > rect.x + rect.w - 20 ==> x + text_w == rect.x + rect.w - 20
            &&& y == half_of(rect.h - text_h)
        }),
{
}

/// What a reader of markup takes a text for: the entities stand for their characters.
pub open spec fn read_markup(t: Seq<char>) -> Seq<char>
    decreases t.len(),
{
    if t.len() == 0 {
        Seq::empty()
    } else if text::starts_with(t, seq!['&', 'a', 'm', 'p', ';']) {
        seq!['&'] + read_markup(t.skip(5))
    } else if text::starts_with(t, seq!['&', 'l', 't', ';']) {
        seq!['<'] + read_markup(t.skip(4))
    } else if text::starts_with(t, seq!['&', 'g', 't', ';']) {
        seq!['>'] + read_markup(t.skip(4))
    } else if text::starts_with(t, seq!['&', 'q', 'u', 'o', 't', ';']) {
        seq!['"'] + read_markup(t.skip(6))
    } else if text::starts_with(t, seq!['&', 'a', 'p', 'o', 's', ';']) {
        seq!['\''] + read_markup(t.skip(6))
    } else {
        seq![t[0]] + read_markup(t.skip(1))
    }
}

proof fn lemma_entities()
    ensures
        "&amp;"@ == seq!['&', 'a', 'm', 'p', ';'],
        "&lt;"@ == seq!['&', 'l', 't', ';'],
        "&gt;"@ == seq!['&', 'g', 't', ';'],
        "&quot;"@ == seq!['&', 'q', 'u', 'o', 't', ';'],
        "&apos;"@ == seq!['&', 'a', 'p', 'o', 's', ';'],
{
    reveal_strlit("&amp;");
    reveal_strlit("&lt;");
    reveal_strlit("&gt;");
    reveal_strlit("&quot;");
    reveal_strlit("&apos;");
    assert("&amp;"@ =~= seq!['&', 'a', 'm', 'p', ';']);
    assert("&lt;"@ =~= seq!['&', 'l', 't', ';']);
    assert("&gt;"@ =~= seq!['&', 'g', 't', ';']);
    assert("&quot;"@ =~= seq!['&', 'q', 'u', 'o', 't', ';']);
    assert("&apos;"@ =~= seq!['&', 'a', 'p', 'o', 's', ';']);
}

proof fn lemma_not_prefix(t: Seq<char>, p: Seq<char>, k: int)
    requires
        0 <= k < p.len(),
        k < t.len(),
        t[k] != p[k],
    ensures
        !text::starts_with(t, p),
{
    if text::starts_with(t, p) {
        assert(t.take(p.len() as int)[k] == p[k]);
    }
}

proof fn lemma_read_char(c: char, r: Seq<char>)
    ensures
        read_markup(escaped_char(c) + r) == seq![c] + read_markup(r),
{
    lemma_entities();
    let e = escaped_char(c);
    let t = e + r;
    assert(t.skip(e.len() as int) =~= r);
    assert(t.take(e.len() as int) =~= e);
    let amp = seq!['&', 'a', 'm', 'p', ';'];
    let lt = seq!['&', 'l', 't', ';'];
    let gt = seq!['&', 'g', 't', ';'];
    let quot = seq!['&', 'q', 'u', 'o', 't', ';'];
    let apos = seq!['&', 'a', 'p', 'o', 's', ';'];
    if c == '&' {
        assert(text::starts_with(t, amp));
    } else if c == '<' {
        lemma_not_prefix(t, amp, 1);
    } else if c == '>' {
        lemma_not_prefix(t, amp, 1);
        lemma_not_prefix(t, lt, 1);
    } else if c == '"' {
        lemma_not_prefix(t, amp, 1);
        lemma_not_prefix(t, lt, 1);
        lemma_not_prefix(t, gt, 1);
    } else if c == '\'' {
        lemma_not_prefix(t, amp, 2);
        lemma_not_prefix(t, lt, 1);
        lemma_not_prefix(t, gt, 1);
        lemma_not_prefix(t, quot, 1);
    } else {
        lemma_not_prefix(t, amp, 0);
        lemma_not_prefix(t, lt, 0);
        lemma_not_prefix(t, gt, 0);
        lemma_not_prefix(t, quot, 0);
        lemma_not_prefix(t, apos, 0);
    }
}

/// Escaped text is shown as it was: a reader of markup takes it for the text itself, whatever
/// follows it.
pub proof fn law_escaped_text_reads_back(s: Seq<char>, rest: Seq<char>)
    ensures
        read_markup(escaped(s) + rest) == s + read_markup(rest),
        read_markup(escaped(s)) == s,
    decreases s.len(),
{
    lemma_escaped_reads(s, rest);
    lemma_escaped_reads(s, Seq::empty());
    assert(escaped(s) + Seq::<char>::empty() =~= escaped(s));
    assert(s + Seq::<char>::empty() =~= s);
}

proof fn lemma_escaped_reads(s: Seq<char>, rest: Seq<char>)
    ensures
        read_markup(escaped(s) + rest) == s + read_markup(rest),
    decreases s.len(),
{
    if s.len() == 0 {
        assert(escaped(s) + rest =~= rest);
        assert(s + read_markup(rest) =~= read_markup(rest));
    } else {
        let tail = escaped_char(s.last()) + rest;
        lemma_escaped_reads(s.drop_last(), tail);
        lemma_read_char(s.last(), rest);
        assert(escaped(s) + rest =~= escaped(s.drop_last()) + tail);
        assert(s.drop_last() + (seq![s.last()] + read_markup(rest)) =~= s + read_markup(rest));
    }
}

/// Escaped text holds no mark-up: no angle bracket and no quote of the text is left in it.
pub proof fn law_escaped_text_is_no_markup(s: Seq<char>, i: int)
    requires
        0 <= i < escaped(s).len(),
    ensures
        escaped(s)[i] != '<' && escaped(s)[i] != '>' && escaped(s)[i] != '"' && escaped(s)[i]
            != '\'',
    decreases s.len(),
{
    lemma_entities();
    if s.len() > 0 {
        let a = escaped(s.drop_last());
        if i < a.len() {
            law_escaped_text_is_no_markup(s.drop_last(), i);
            assert(escaped(s)[i] == a[i]);
        } else {
            assert(escaped(s)[i] == escaped_char(s.last())[i - a.len()]);
        }
    }
}

proof fn lemma_rect_bytes(full: Seq<u8>, rect: Rect, stride: int, n: int, row: int, col: int)
    requires
        rect.w > 0,
        rect.x >= 0,
        rect.y >= 0,
        stride >= 0,
        0 <= row < n,
        0 <= col < rect.w * 4,
        row_start(rect, stride, n - 1) + rect.w * 4 <= full.len(),
    ensures
        rect_bytes(full, rect, stride, n).len() == n * (rect.w * 4),
        rect_bytes(full, rect, stride, n)[row * (rect.w * 4) + col] == full[(rect.y + row) * stride
            + rect.x * 4 + col],
    decreases n,
{
    let w = rect.w * 4;
    assert(0 <= row_start(rect, stride, n - 1)) by (nonlinear_arith)
        requires
            row_start(rect, stride, n - 1) == (rect.y + (n - 1)) * stride + rect.x * 4,
            rect.y >= 0,
            rect.x >= 0,
            stride >= 0,
            n >= 1,
    ;
    let before = rect_bytes(full, rect, stride, n - 1);
    if n > 1 {
        assert(row_start(rect, stride, n - 2) <= row_start(rect, stride, n - 1)) by (nonlinear_arith)
            requires
                row_start(rect, stride, n - 2) == (rect.y + (n - 2)) * stride + rect.x * 4,
                row_start(rect, stride, n - 1) == (rect.y + (n - 1)) * stride + rect.x * 4,
                stride >= 0,
        ;
        lemma_rect_bytes(
            full,
            rect,
            stride,
            n - 1,
            if row < n - 1 {
                row
            } else {
                0
            },
            col,
        );
    }
    assert(before.len() == (n - 1) * w) by {
        if n == 1 {
            assert((n - 1) * w == 0) by (nonlinear_arith)
                requires
                    n == 1,
            ;
        }
    }
    assert(n * w == (n - 1) * w + w) by (nonlinear_arith);
    if row < n - 1 {
        assert(row * w + col < (n - 1) * w) by (nonlinear_arith)
            requires
                0 <= row < n - 1,
                0 <= col < w,
        ;
        assert(0 <= row * w) by (nonlinear_arith)
            requires
                0 <= row,
                0 < w,
        ;
    }
}

/// The bytes of a region are those of its pixels, row by row: what stands at a row and a column of
/// the region stood there in the whole picture.
pub proof fn law_region_is_cut_out_of_the_picture(
    full: Seq<u8>,
    rect: Rect,
    stride: int,
    row: int,
    col: int,
)
    requires
        rect.w > 0,
        rect.x >= 0,
        rect.y >= 0,
        stride >= 0,
        0 <= row < rect.h,
        0 <= col < rect.w * 4,
        row_start(rect, stride, rect.h - 1) + rect.w * 4 <= full.len(),
    ensures
        rect_bytes(full, rect, stride, rect.h as int).len() == rect.h * (rect.w * 4),
        rect_bytes(full, rect, stride, rect.h as int)[row * (rect.w * 4) + col] == full[(rect.y
            + row) * stride + rect.x * 4 + col],
{
    lemma_rect_bytes(full, rect, stride, rect.h as int, row, col);
}

/// A completion is the first of the names that go on from the input; there is none where no name
/// does, and none of an empty input.
pub proof fn law_completion_is_the_first_match(names: Seq<Seq<char>>, input: Seq<char>, k: int)
    requires
        0 <= k < names.len(),
        text::starts_with(names[k], input),
        forall|j: int| 0 <= j < k ==> !text::starts_with(#[trigger] names[j], input),
    ensures
        input.len() > 0 ==> completion_of(names, input) == Some(names[k]),
        input.len() == 0 ==> completion_of(names, input) is None,
{
    lemma_completion_at(names, input, 0, k);
}

proof fn lemma_completion_at(names: Seq<Seq<char>>, input: Seq<char>, i: int, k: int)
    requires
        0 <= i <= k < names.len(),
        text::starts_with(names[k], input),
        forall|j: int| i <= j < k ==> !text::starts_with(#[trigger] names[j], input),
    ensures
        completion_from(names, input, i) == Some(names[k]),
    decreases k - i,
{
    if i < k {
        assert(!text::starts_with(names[i], input));
        lemma_completion_at(names, input, i + 1, k);
    }
}

/// Without a name that goes on from the input there is no completion.
pub proof fn law_no_match_no_completion(names: Seq<Seq<char>>, input: Seq<char>, i: int)
    requires
        0 <= i,
        forall|j: int| i <= j < names.len() ==> !text::starts_with(#[trigger] names[j], input),
    ensures
        completion_from(names, input, i) is None,
        i == 0 ==> completion_of(names, input) is None,
    decreases names.len() - i,
{
    if i < names.len() {
        law_no_match_no_completion(names, input, i + 1);
    }
}

/// What is typed is what stands in the prompt: after the keys of a text, each of them printable, the
/// input is that text, the cursor stands behind it, and return runs it.
pub proof fn law_typed_text_is_the_input(names: Seq<Seq<char>>, keys: Seq<u32>)
    requires
        forall|i: int| 0 <= i < keys.len() ==> 0x20 <= #[trigger] keys[i] <= 0x7e,
    ensures
        after_keys(Some(opened()), names, keys) matches Some(p) && p.input == Seq::new(
            keys.len(),
            |i: int| keys[i] as char,
        ) && p.cursor == keys.len() && (keys.len() > 0 ==> prompt_command(p, KEY_RETURN) == Some(
            p.input,
        )),
    decreases keys.len(),
{
    let typed = Seq::new(keys.len(), |i: int| keys[i] as char);
    if keys.len() == 0 {
        assert(typed =~= Seq::empty());
    } else {
        let front = keys.drop_last();
        law_typed_text_is_the_input(names, front);
        let q = after_keys(Some(opened()), names, front)->0;
        let n = q.input.len() as int;
        assert(0x20 <= keys[keys.len() - 1] <= 0x7e);
        assert(vstd::utf8::is_ascii_chars(q.input)) by {
            assert forall|i: int| 0 <= i < n implies '\0' <= #[trigger] q.input[i] <= '\u{7f}' by {
                assert(q.input[i] == front[i] as char);
                assert(front[i] == keys[i]);
            }
        }
        vstd::utf8::is_ascii_chars_encode_utf8(q.input);
        assert(q.input.take(n) =~= q.input);
        text::lemma_boundary(q.input, n);
        assert(q.input.insert(n, keys.last() as char) =~= q.input.push(keys.last() as char));
        assert(typed =~= q.input.push(keys.last() as char));
    }
}

/// A key that is neither printable nor one of the four that the prompt knows changes nothing, and so
/// does a tabulator without a completion; one with a completion puts it in, with the cursor behind.
pub proof fn law_other_keys_change_nothing(p: PromptView, names: Seq<Seq<char>>, keysym: u32)
    ensures
        keysym < 0x20 || (keysym > 0x7e && keysym != KEY_RETURN && keysym != KEY_ESCAPE && keysym
            != KEY_TAB && keysym != KEY_BACKSPACE) ==> prompt_after(p, names, keysym) == Some(p),
        p.completion is None ==> prompt_after(p, names, KEY_TAB) == Some(p),
        p.completion matches Some(c) ==> (prompt_after(p, names, KEY_TAB) matches Some(q) && q.input
            == c && q.cursor == text::byte_len(c)),
        prompt_after(p, names, KEY_ESCAPE) is None,
        prompt_command(p, KEY_ESCAPE) is None,
{
}

/// The colours of the bar are the configured ones, each from the setting of its name.
pub proof fn law_colors_come_from_their_settings(c: Config)
    ensures
        colors_of(c).bg == torrentius::color_of(c.bar.bg@),
        colors_of(c).fg == torrentius::color_of(c.bar.fg@),
        colors_of(c).tag_focused_bg == torrentius::color_of(c.bar.tag_focused_bg@),
        colors_of(c).tag_focused_fg == torrentius::color_of(c.bar.tag_focused_fg@),
        colors_of(c).tag_occupied_fg == torrentius::color_of(c.bar.tag_occupied_fg@),
        colors_of(c).tag_empty_fg == torrentius::color_of(c.bar.tag_empty_fg@),
        colors_of(c).notification_fg == torrentius::color_of(c.bar.notification_fg@),
{
}

/// A tag is drawn with room on either side: two blanks before its name and two behind it.
pub proof fn law_tag_name_has_room(name: Seq<char>)
    ensures
        padded_name(name).len() == name.len() + 4,
        padded_name(name).subrange(2, 2 + name.len() as int) == name,
        padded_name(name)[0] == ' ' && padded_name(name)[1] == ' ',
        padded_name(name)[2 + name.len() as int] == ' ' && padded_name(name)[3 + name.len() as int] == ' ',
{
    reveal_strlit("  ");
    assert(padded_name(name).subrange(2, 2 + name.len() as int) =~= name);
}

/// The order of names is an order: of two different names one stands before the other, and not the
/// other way round; a name stands before those that go on from it.
pub proof fn law_names_are_in_order(a: Seq<char>, b: Seq<char>)
    ensures
        a != b ==> text_before(a, b) || text_before(b, a),
        !(text_before(a, b) && text_before(b, a)),
        !text_before(a, a),
        text::starts_with(b, a) && a != b ==> text_before(a, b),
    decreases a.len(),
{
    if a.len() > 0 && b.len() > 0 {
        law_names_are_in_order(a.skip(1), b.skip(1));
        if a[0] == b[0] {
            if a.skip(1) == b.skip(1) {
                assert(a =~= seq![a[0]] + a.skip(1));
                assert(b =~= seq![b[0]] + b.skip(1));
            }
            if text::starts_with(b, a) {
                assert(b.skip(1).take(a.len() - 1) =~= b.take(a.len() as int).skip(1));
            }
        } else if text::starts_with(b, a) {
            assert(b.take(a.len() as int)[0] == a[0]);
        }
        law_names_are_in_order(a.skip(1), a.skip(1));
    } else if a.len() > 0 {
        law_names_are_in_order(a.skip(1), a.skip(1));
    } else if b.len() == 0 {
        assert(a =~= b);
    }
}

/// The width of a strip of tags with these texts.
pub open spec fn strip_width(widths: Seq<i32>) -> int {
    2 * TAGS_EDGE_PAD + width_sum(widths, widths.len() as int)
}

/// The strip is as wide as its tags and the padding at its two ends: the last tag ends the padding
/// before the strip does, and the first begins the padding behind its start.
pub proof fn law_strip_holds_its_tags(
    rect: Rect,
    sizes: Seq<(i32, i32)>,
    active: int,
    occupied: Seq<bool>,
)
    requires
        sizes_measured(sizes),
        rect.x == 0,
        sizes.len() > 0,
    ensures
        ({
            let cells = tag_cells(rect, sizes, active, occupied, sizes.len() as int);
            &&& cells[0].x == 20
            &&& cells.last().x + cells.last().w == strip_width(widths_of(sizes)) - 20
        }),
{
    law_tags_stand_side_by_side(rect, sizes, active, occupied, 0);
    law_tags_stand_side_by_side(rect, sizes, active, occupied, sizes.len() - 1);
}

/// The room that a title has, where one of `len` characters is shown.
pub open spec fn title_room(pi: int, rect: Rect, len: nat) -> Option<i32> {
    if pi == 0 && len > 0 && rect.w - 40 >= 50 {
        Some((rect.w - 40) as i32)
    } else {
        None
    }
}

/// A title is shown on the first panel alone, where there is one and its region has room for it; cut
/// to that room, it stays in its region wherever on the panel that lies.
pub proof fn law_title_is_cut_to_its_room(
    panel_w: int,
    pi: int,
    rect: Rect,
    len: nat,
    text_w: int,
    text_h: int,
)
    requires
        0 <= rect.w,
        0 <= text_w,
        title_room(pi, rect, len) matches Some(w) ==> text_w <= w,
    ensures
        title_room(pi, rect, len) is Some <==> pi == 0 && len > 0 && rect.w >= 90,
        title_room(pi, rect, len) is Some ==> ({
            let x = title_at(panel_w, rect, text_w, text_h).0;
            rect.x < x && x + text_w < rect.x + rect.w
        }),
{
    if title_room(pi, rect, len) is Some {
        law_title_stays_in_region(panel_w, rect, text_w, text_h);
    }
}

/// The place of the clock.
pub open spec fn clock_at(panel_w: int, rect: Rect, clock_w: int, clock_h: int) -> (int, int) {
    (panel_w - clock_w - 10, half_of(rect.h - clock_h))
}

/// The clock ends ten pixels before the panel does, however wide it is, in the middle of its height.
pub proof fn law_clock_stands_at_the_right(panel_w: int, rect: Rect, clock_w: int, clock_h: int)
    ensures
        ({
            let (x, y) = clock_at(panel_w, rect, clock_w, clock_h);
            &&& x + clock_w + 10 == panel_w
            &&& -1 <= rect.h - clock_h - 2 * y <= 1
        }),
{
}

} // verus!
