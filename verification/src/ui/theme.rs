//! The palette of the interface.
//!
//! The whole palette is derived from one syntax theme: the colors that the theme gives are
//! resolved here with their fallbacks ([`resolve`]), and put together with the blends of
//! them ([`assemble`]). On a terminal without 24-bit color each `Rgb` is downsampled to the
//! nearest xterm-256 index ([`adapt_color`]).
use crate::ui::style::Color;
use vstd::prelude::*;

verus! {

/// Semantic colors for the diff viewer's chrome and text.
#[derive(Debug, Clone, Copy, PartialEq, Eq, Structural)]
pub struct Theme {
    /// The global background painted behind every pane.
    pub bg: Color,
    /// Added line tint.
    pub add_bg: Color,
    /// Removed line tint.
    pub del_bg: Color,
    /// Current (cursor) line when its pane is focused (diff or sidebar).
    pub cursor_bg: Color,
    /// Current/selected line when its pane is *not* focused.
    pub unfocus_bg: Color,
    /// File-header row background.
    pub file_header_bg: Color,
    /// Inline comment box background.
    pub comment_bg: Color,
    /// Very dark chrome (split column divider).
    pub subtle: Color,
    /// Scrollbar thumb.
    pub scrollbar_thumb: Color,
    /// Diff panel border while focused.
    pub border_focus: Color,
    /// Diff panel border while unfocused (dim but visible).
    pub border_unfocus: Color,
    /// Default body text.
    pub text: Color,
    /// Emphasized text (current file, headers, comment-box border).
    pub text_strong: Color,
    /// Muted text (gutter numbers, status line, context sign, resolved dot).
    pub muted: Color,
    /// Faint structural text (directory / hunk headers, sidebar labels).
    pub faint: Color,
    /// Accent (rename status, comment author).
    pub accent: Color,
    /// Attention (modified status, open-comment dot).
    pub warn: Color,
    /// Additions (status letter, `+` sign, counts).
    pub added: Color,
    /// Deletions (status letter, `-` sign, counts).
    pub removed: Color,
    /// Placeholder where no marker is drawn.
    pub none: Color,
}

/// A neutral dark palette.
pub open spec fn fallback_theme() -> Theme {
    Theme {
        bg: Color::Rgb(26, 27, 38),
        add_bg: Color::Rgb(32, 44, 38),
        del_bg: Color::Rgb(55, 32, 42),
        cursor_bg: Color::Rgb(54, 74, 124),
        unfocus_bg: Color::Rgb(41, 46, 66),
        file_header_bg: Color::Rgb(41, 46, 66),
        comment_bg: Color::Rgb(31, 35, 53),
        subtle: Color::Rgb(41, 46, 66),
        scrollbar_thumb: Color::Rgb(86, 95, 137),
        border_focus: Color::Rgb(122, 162, 247),
        border_unfocus: Color::Rgb(86, 95, 137),
        text: Color::Rgb(169, 177, 214),
        text_strong: Color::Rgb(192, 202, 245),
        muted: Color::Rgb(86, 95, 137),
        faint: Color::Rgb(115, 122, 162),
        accent: Color::Rgb(125, 207, 255),
        warn: Color::Rgb(224, 175, 104),
        added: Color::Rgb(158, 206, 106),
        removed: Color::Rgb(247, 118, 142),
        none: Color::Reset,
    }
}

/// The palette in use until one is derived from a syntax theme.
pub fn fallback() -> (r: Theme)
    ensures
        r == fallback_theme(),
{
    Theme {
        bg: Color::Rgb(26, 27, 38),
        add_bg: Color::Rgb(32, 44, 38),
        del_bg: Color::Rgb(55, 32, 42),
        cursor_bg: Color::Rgb(54, 74, 124),
        unfocus_bg: Color::Rgb(41, 46, 66),
        file_header_bg: Color::Rgb(41, 46, 66),
        comment_bg: Color::Rgb(31, 35, 53),
        subtle: Color::Rgb(41, 46, 66),
        scrollbar_thumb: Color::Rgb(86, 95, 137),
        border_focus: Color::Rgb(122, 162, 247),
        border_unfocus: Color::Rgb(86, 95, 137),
        text: Color::Rgb(169, 177, 214),
        text_strong: Color::Rgb(192, 202, 245),
        muted: Color::Rgb(86, 95, 137),
        faint: Color::Rgb(115, 122, 162),
        accent: Color::Rgb(125, 207, 255),
        warn: Color::Rgb(224, 175, 104),
        added: Color::Rgb(158, 206, 106),
        removed: Color::Rgb(247, 118, 142),
        none: Color::Reset,
    }
}

/// A 24-bit color.
#[derive(Debug, Clone, Copy, PartialEq, Eq, Structural)]
pub struct Rgb {
    pub r: u8,
    pub g: u8,
    pub b: u8,
}

/// The square of the difference of two channel values.
pub open spec fn square_gap(x: int, y: int) -> int {
    (x - y) * (x - y)
}

/// The square of the distance between two colors.
pub open spec fn square_dist(a: Rgb, b: Rgb) -> int {
    square_gap(a.r as int, b.r as int) + square_gap(a.g as int, b.g as int) + square_gap(
        a.b as int,
        b.b as int,
    )
}

fn gap2(x: i32, y: i32) -> (r: i32)
    requires
        0 <= x <= 255,
        0 <= y <= 255,
    ensures
        r == square_gap(x as int, y as int),
        0 <= r <= 65025,
{
    let d: i32 = x - y;
    assert(0 <= d * d <= 65025) by (nonlinear_arith)
        requires
            -255 <= d <= 255,
    ;
    d * d
}

/// Squared distance between two RGB triples (perceptual-ish, unweighted).
pub fn dist2(a: Rgb, b: Rgb) -> (r: i32)
    ensures
        r == square_dist(a, b),
{
    gap2(a.r as i32, b.r as i32) + gap2(a.g as i32, b.g as i32) + gap2(a.b as i32, b.b as i32)
}

/// The sample levels of each axis of xterm's color cube.
pub open spec fn cube_level(i: int) -> int {
    if i <= 0 {
        0
    } else {
        55 + 40 * i
    }
}

/// The difference of two channel values.
pub open spec fn gap(x: int, y: int) -> int {
    if x < y {
        y - x
    } else {
        x - y
    }
}

/// `i` is the first of the levels nearest to `v`.
pub open spec fn nearest_level(v: int, i: int) -> bool {
    &&& 0 <= i <= 5
    &&& forall|k: int| 0 <= k <= 5 ==> gap(v, cube_level(i)) <= #[trigger] gap(v, cube_level(k))
    &&& forall|k: int| 0 <= k < i ==> gap(v, cube_level(i)) < #[trigger] gap(v, cube_level(k))
}

/// The first of the cube levels nearest to `v`.
pub open spec fn cube_index(v: int) -> int {
    choose|i: int| nearest_level(v, i)
}

/// The index of a cube color in the palette.
pub open spec fn cube_slot(i: int, j: int, k: int) -> int {
    16 + 36 * i + 6 * j + k
}

/// The step of the gray ramp (8, 18, .. 238) nearest to `avg`, the brighter one in a tie.
pub open spec fn gray_step(avg: int) -> int {
    if avg < 8 {
        0
    } else if avg >= 238 {
        23
    } else {
        (avg - 3) / 10
    }
}

/// The gray of a step.
pub open spec fn gray_value(n: int) -> int {
    8 + 10 * n
}

/// The squared distance of a color from a triple of levels.
pub open spec fn level_dist(r: int, g: int, b: int, x: int, y: int, z: int) -> int {
    square_gap(r, x) + square_gap(g, y) + square_gap(b, z)
}

/// The palette index for a color: the nearest color of the cube, or the gray nearest to the
/// mean of its channels where that is strictly closer.
pub open spec fn ansi256(r: u8, g: u8, b: u8) -> int {
    let (i, j, k) = (cube_index(r as int), cube_index(g as int), cube_index(b as int));
    let n = gray_step((r + g + b) / 3);
    let v = gray_value(n);
    if level_dist(r as int, g as int, b as int, cube_level(i), cube_level(j), cube_level(k))
        <= level_dist(r as int, g as int, b as int, v, v, v) {
        cube_slot(i, j, k)
    } else {
        232 + n
    }
}

proof fn lemma_nearest_unique(v: int, i: int)
    requires
        nearest_level(v, i),
    ensures
        cube_index(v) == i,
{
    let c = cube_index(v);
    assert(nearest_level(v, c));
    if c < i {
        assert(gap(v, cube_level(i)) < gap(v, cube_level(c)));
        assert(gap(v, cube_level(c)) <= gap(v, cube_level(i)));
    }
    if i < c {
        assert(gap(v, cube_level(c)) < gap(v, cube_level(i)));
        assert(gap(v, cube_level(i)) <= gap(v, cube_level(c)));
    }
}

fn level(i: i32) -> (r: i32)
    requires
        0 <= i <= 5,
    ensures
        r == cube_level(i as int),
        0 <= r <= 255,
{
    if i == 0 {
        0
    } else {
        55 + 40 * i
    }
}

fn nearest_cube(v: i32) -> (r: i32)
    requires
        0 <= v <= 255,
    ensures
        r == cube_index(v as int),
        0 <= r <= 5,
{
    let r: i32 = if v <= 47 {
        0
    } else if v <= 115 {
        1
    } else if v <= 155 {
        2
    } else if v <= 195 {
        3
    } else if v <= 235 {
        4
    } else {
        5
    };
    proof {
        assert(nearest_level(v as int, r as int));
        lemma_nearest_unique(v as int, r as int);
    }
    r
}

/// Nearest xterm-256 palette index for a 24-bit color. Considers both the 6x6x6 color cube
/// (indices 16..=231) and the 24-step grayscale ramp (232..=255). The first 16 slots are
/// skipped: they are terminal-defined.
pub fn rgb_to_ansi256(r: u8, g: u8, b: u8) -> (idx: u8)
    ensures
        idx == ansi256(r, g, b),
        16 <= idx,
{
    let (x, y, z) = (r as i32, g as i32, b as i32);
    let i: i32 = nearest_cube(x);
    let j: i32 = nearest_cube(y);
    let k: i32 = nearest_cube(z);
    let cube: i32 = gap2(x, level(i)) + gap2(y, level(j)) + gap2(z, level(k));
    let avg: i32 = (x + y + z) / 3;
    let n: i32 = if avg < 8 {
        0
    } else if avg >= 238 {
        23
    } else {
        (avg - 3) / 10
    };
    let v: i32 = 8 + 10 * n;
    let gray: i32 = gap2(x, v) + gap2(y, v) + gap2(z, v);
    let idx: i32 = if cube <= gray {
        16 + 36 * i + 6 * j + k
    } else {
        232 + n
    };
    idx as u8
}

/// No step of the gray ramp is closer to a color than the one for the mean of its channels.
pub proof fn law_gray_candidate_is_nearest(r: u8, g: u8, b: u8, m: int)
    requires
        0 <= m <= 23,
    ensures
        ({
            let v = gray_value(gray_step((r + g + b) / 3));
            let u = gray_value(m);
            level_dist(r as int, g as int, b as int, v, v, v) <= level_dist(
                r as int,
                g as int,
                b as int,
                u,
                u,
                u,
            )
        }),
{
    let s = r + g + b;
    let n = gray_step(s / 3);
    let v = gray_value(n);
    let u = gray_value(m);
    assert(m > n ==> s <= 3 * v + 15);
    assert(m < n ==> s >= 3 * v - 15);
    let (x, y, z) = (r as int, g as int, b as int);
    assert(((x - u) * (x - u) + (y - u) * (y - u) + (z - u) * (z - u)) - ((x - v) * (x - v) + (y - v)
        * (y - v) + (z - v) * (z - v)) == (u - v) * (3 * (u + v) - 2 * (x + y + z)))
        by (nonlinear_arith);
    let d = u - v;
    let e = 3 * (u + v) - 2 * s;
    assert(d * e >= 0) by (nonlinear_arith)
        requires
            d == 0 || (d > 0 && e >= 0) || (d < 0 && e <= 0),
    ;
}

/// No color of the cube is closer to a color than the cube's candidate.
pub proof fn law_cube_candidate_is_nearest(r: u8, g: u8, b: u8, i: int, j: int, k: int)
    requires
        0 <= i <= 5,
        0 <= j <= 5,
        0 <= k <= 5,
    ensures
        level_dist(
            r as int,
            g as int,
            b as int,
            cube_level(cube_index(r as int)),
            cube_level(cube_index(g as int)),
            cube_level(cube_index(b as int)),
        ) <= level_dist(
            r as int,
            g as int,
            b as int,
            cube_level(i),
            cube_level(j),
            cube_level(k),
        ),
{
    lemma_axis(r as int, i);
    lemma_axis(g as int, j);
    lemma_axis(b as int, k);
}

proof fn lemma_axis(v: int, i: int)
    requires
        0 <= v <= 255,
        0 <= i <= 5,
    ensures
        square_gap(v, cube_level(cube_index(v))) <= square_gap(v, cube_level(i)),
{
    let r: int = if v <= 47 {
        0
    } else if v <= 115 {
        1
    } else if v <= 155 {
        2
    } else if v <= 195 {
        3
    } else if v <= 235 {
        4
    } else {
        5
    };
    assert(nearest_level(v, r));
    lemma_nearest_unique(v, r);
    let a = gap(v, cube_level(r));
    let c = gap(v, cube_level(i));
    assert(a <= c);
    assert(a * a <= c * c) by (nonlinear_arith)
        requires
            0 <= a <= c,
    ;
    let d = v - cube_level(r);
    assert(d * d == a * a) by (nonlinear_arith)
        requires
            a == d || a == -d,
    ;
    let e = v - cube_level(i);
    assert(e * e == c * c) by (nonlinear_arith)
        requires
            c == e || c == -e,
    ;
}

/// A color as the terminal can show it.
pub open spec fn adapted(c: Color, truecolor: bool) -> Color {
    match c {
        Color::Rgb(r, g, b) => if truecolor {
            c
        } else {
            Color::Indexed(ansi256(r, g, b) as u8)
        },
        _ => c,
    }
}

/// Downsample a single `Rgb` color to the nearest xterm-256 index when the terminal isn't
/// truecolor; pass everything else through untouched.
pub fn adapt_color(c: Color, truecolor: bool) -> (r: Color)
    ensures
        r == adapted(c, truecolor),
{
    match c {
        Color::Rgb(r, g, b) => if truecolor {
            c
        } else {
            Color::Indexed(rgb_to_ansi256(r, g, b))
        },
        other => other,
    }
}

/// A palette as the terminal can show it.
pub open spec fn adapted_theme(t: Theme, truecolor: bool) -> Theme {
    Theme {
        bg: adapted(t.bg, truecolor),
        add_bg: adapted(t.add_bg, truecolor),
        del_bg: adapted(t.del_bg, truecolor),
        cursor_bg: adapted(t.cursor_bg, truecolor),
        unfocus_bg: adapted(t.unfocus_bg, truecolor),
        file_header_bg: adapted(t.file_header_bg, truecolor),
        comment_bg: adapted(t.comment_bg, truecolor),
        subtle: adapted(t.subtle, truecolor),
        scrollbar_thumb: adapted(t.scrollbar_thumb, truecolor),
        border_focus: adapted(t.border_focus, truecolor),
        border_unfocus: adapted(t.border_unfocus, truecolor),
        text: adapted(t.text, truecolor),
        text_strong: adapted(t.text_strong, truecolor),
        muted: adapted(t.muted, truecolor),
        faint: adapted(t.faint, truecolor),
        accent: adapted(t.accent, truecolor),
        warn: adapted(t.warn, truecolor),
        added: adapted(t.added, truecolor),
        removed: adapted(t.removed, truecolor),
        none: adapted(t.none, truecolor),
    }
}

impl Theme {
    /// A copy with every `Rgb` field downsampled for a non-truecolor terminal (a no-op when
    /// `truecolor`). Other colors are preserved.
    pub fn adapt(&self, truecolor: bool) -> (r: Theme)
        ensures
            r == adapted_theme(*self, truecolor),
    {
        Theme {
            bg: adapt_color(self.bg, truecolor),
            add_bg: adapt_color(self.add_bg, truecolor),
            del_bg: adapt_color(self.del_bg, truecolor),
            cursor_bg: adapt_color(self.cursor_bg, truecolor),
            unfocus_bg: adapt_color(self.unfocus_bg, truecolor),
            file_header_bg: adapt_color(self.file_header_bg, truecolor),
            comment_bg: adapt_color(self.comment_bg, truecolor),
            subtle: adapt_color(self.subtle, truecolor),
            scrollbar_thumb: adapt_color(self.scrollbar_thumb, truecolor),
            border_focus: adapt_color(self.border_focus, truecolor),
            border_unfocus: adapt_color(self.border_unfocus, truecolor),
            text: adapt_color(self.text, truecolor),
            text_strong: adapt_color(self.text_strong, truecolor),
            muted: adapt_color(self.muted, truecolor),
            faint: adapt_color(self.faint, truecolor),
            accent: adapt_color(self.accent, truecolor),
            warn: adapt_color(self.warn, truecolor),
            added: adapt_color(self.added, truecolor),
            removed: adapt_color(self.removed, truecolor),
            none: adapt_color(self.none, truecolor),
        }
    }
}

/// A color with its opacity.
#[derive(Debug, Clone, Copy, PartialEq, Eq, Structural)]
pub struct Rgba {
    pub rgb: Rgb,
    pub alpha: u8,
}

/// What a syntax theme says: its settings, and the foreground that it gives to a scope.
#[derive(Debug, Clone, Copy)]
pub struct SyntaxColors {
    pub background: Option<Rgb>,
    pub foreground: Option<Rgb>,
    pub accent: Option<Rgb>,
    pub line_highlight: Option<Rgba>,
    pub selection: Option<Rgba>,
    pub comment: Option<Rgb>,
    pub keyword: Option<Rgb>,
    pub string: Option<Rgb>,
    pub numeric: Option<Rgb>,
    pub markup_inserted: Option<Rgb>,
    pub diff_inserted: Option<Rgb>,
    pub markup_deleted: Option<Rgb>,
    pub diff_deleted: Option<Rgb>,
}

/// The colors that the palette is made of. Without a comment color or a highlight, blends
/// of the background with the foreground take their place.
#[derive(Debug, Clone, Copy)]
pub struct BaseColors {
    pub bg: Rgb,
    pub fg: Rgb,
    pub comment: Option<Rgb>,
    pub accent: Rgb,
    pub warn: Rgb,
    pub added: Rgb,
    pub removed: Rgb,
    pub highlight: Option<Rgba>,
}

/// A scope's color, unless it is the plain foreground.
pub open spec fn distinct(c: Option<Rgb>, fg: Rgb) -> Option<Rgb> {
    match c {
        Some(x) => if x == fg {
            None
        } else {
            Some(x)
        },
        None => None,
    }
}

/// The first of two colors that there is.
pub open spec fn first_of(a: Option<Rgb>, b: Option<Rgb>) -> Option<Rgb> {
    if a is Some {
        a
    } else {
        b
    }
}

/// A color, or another one in its place.
pub open spec fn or_else(a: Option<Rgb>, b: Rgb) -> Rgb {
    match a {
        Some(x) => x,
        None => b,
    }
}

/// The base colors of a syntax theme.
pub open spec fn resolved(s: SyntaxColors) -> BaseColors {
    let bg = or_else(s.background, Rgb { r: 26, g: 27, b: 38 });
    let fg = or_else(s.foreground, Rgb { r: 192, g: 202, b: 245 });
    BaseColors {
        bg,
        fg,
        comment: distinct(s.comment, fg),
        accent: or_else(first_of(s.accent, distinct(s.keyword, fg)), fg),
        warn: or_else(
            first_of(distinct(s.string, fg), distinct(s.numeric, fg)),
            Rgb { r: 224, g: 175, b: 104 },
        ),
        added: or_else(
            first_of(distinct(s.markup_inserted, fg), distinct(s.diff_inserted, fg)),
            Rgb { r: 158, g: 206, b: 106 },
        ),
        removed: or_else(
            first_of(distinct(s.markup_deleted, fg), distinct(s.diff_deleted, fg)),
            Rgb { r: 247, g: 118, b: 142 },
        ),
        highlight: if s.line_highlight is Some {
            s.line_highlight
        } else {
            s.selection
        },
    }
}

fn distinct_color(c: Option<Rgb>, fg: Rgb) -> (r: Option<Rgb>)
    ensures
        r == distinct(c, fg),
{
    match c {
        Some(x) => if x == fg {
            None
        } else {
            Some(x)
        },
        None => None,
    }
}

fn first(a: Option<Rgb>, b: Option<Rgb>) -> (r: Option<Rgb>)
    ensures
        r == first_of(a, b),
{
    match a {
        Some(x) => Some(x),
        None => b,
    }
}

fn color_or(a: Option<Rgb>, b: Rgb) -> (r: Rgb)
    ensures
        r == or_else(a, b),
{
    match a {
        Some(x) => x,
        None => b,
    }
}

/// Resolve the base colors: background and foreground come from the theme settings; a
/// handful of scope colors (comment, keyword, string, inserted, deleted) drive the accents
/// and diff tints, each with its fallback.
pub fn resolve(s: &SyntaxColors) -> (r: BaseColors)
    ensures
        r == resolved(*s),
{
    let bg = color_or(s.background, Rgb { r: 26, g: 27, b: 38 });
    let fg = color_or(s.foreground, Rgb { r: 192, g: 202, b: 245 });
    BaseColors {
        bg,
        fg,
        comment: distinct_color(s.comment, fg),
        accent: color_or(first(s.accent, distinct_color(s.keyword, fg)), fg),
        warn: color_or(
            first(distinct_color(s.string, fg), distinct_color(s.numeric, fg)),
            Rgb { r: 224, g: 175, b: 104 },
        ),
        added: color_or(
            first(distinct_color(s.markup_inserted, fg), distinct_color(s.diff_inserted, fg)),
            Rgb { r: 158, g: 206, b: 106 },
        ),
        removed: color_or(
            first(distinct_color(s.markup_deleted, fg), distinct_color(s.diff_deleted, fg)),
            Rgb { r: 247, g: 118, b: 142 },
        ),
        highlight: match s.line_highlight {
            Some(c) => Some(c),
            None => s.selection,
        },
    }
}

/// Blends of the base colors: of the background with the foreground by the share in the
/// name (in percent), with the added and removed colors, and of the highlight laid over the
/// background.
#[derive(Debug, Clone, Copy)]
pub struct Blends {
    pub fg5: Rgb,
    pub fg10: Rgb,
    pub fg12: Rgb,
    pub fg22: Rgb,
    pub fg28: Rgb,
    pub fg32: Rgb,
    pub fg45: Rgb,
    pub fg88: Rgb,
    pub added22: Rgb,
    pub removed22: Rgb,
    pub highlight: Option<Rgb>,
}

/// The background of the focused line: the highlight where that is far enough from the
/// background to be noticed, else a clear blend.
pub open spec fn cursor_color(c: BaseColors, m: Blends) -> Rgb {
    let sel = or_else(m.highlight, m.fg22);
    if square_dist(sel, c.bg) < 900 {
        m.fg22
    } else {
        sel
    }
}

/// An `Rgb` as a terminal color.
pub open spec fn solid(c: Rgb) -> Color {
    Color::Rgb(c.r, c.g, c.b)
}

/// The palette made of base colors and their blends.
pub open spec fn assembled(c: BaseColors, m: Blends) -> Theme {
    Theme {
        bg: solid(c.bg),
        add_bg: solid(m.added22),
        del_bg: solid(m.removed22),
        cursor_bg: solid(cursor_color(c, m)),
        unfocus_bg: solid(m.fg10),
        file_header_bg: solid(m.fg12),
        comment_bg: solid(m.fg5),
        subtle: solid(m.fg12),
        scrollbar_thumb: solid(or_else(c.comment, m.fg45)),
        border_focus: solid(c.accent),
        border_unfocus: solid(m.fg28),
        text: solid(m.fg88),
        text_strong: solid(c.fg),
        muted: solid(m.fg45),
        faint: solid(m.fg32),
        accent: solid(c.accent),
        warn: solid(c.warn),
        added: solid(c.added),
        removed: solid(c.removed),
        none: Color::Reset,
    }
}

fn solid_color(c: Rgb) -> (r: Color)
    ensures
        r == solid(c),
{
    Color::Rgb(c.r, c.g, c.b)
}

/// Put the palette together. Everything that is not a color of its own is a tint of the
/// background toward the foreground, so any theme yields a coherent interface.
pub fn assemble(c: &BaseColors, m: &Blends) -> (r: Theme)
    ensures
        r == assembled(*c, *m),
{
    let sel = color_or(m.highlight, m.fg22);
    let cursor = if dist2(sel, c.bg) < 900 {
        m.fg22
    } else {
        sel
    };
    Theme {
        bg: solid_color(c.bg),
        add_bg: solid_color(m.added22),
        del_bg: solid_color(m.removed22),
        cursor_bg: solid_color(cursor),
        unfocus_bg: solid_color(m.fg10),
        file_header_bg: solid_color(m.fg12),
        comment_bg: solid_color(m.fg5),
        subtle: solid_color(m.fg12),
        scrollbar_thumb: solid_color(color_or(c.comment, m.fg45)),
        border_focus: solid_color(c.accent),
        border_unfocus: solid_color(m.fg28),
        text: solid_color(m.fg88),
        text_strong: solid_color(c.fg),
        muted: solid_color(m.fg45),
        faint: solid_color(m.fg32),
        accent: solid_color(c.accent),
        warn: solid_color(c.warn),
        added: solid_color(c.added),
        removed: solid_color(c.removed),
        none: Color::Reset,
    }
}

} // verus!
