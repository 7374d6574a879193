//! `KEY=VALUE` configuration of the desk panel: its width, height, edge,
//! margins, appearance, buffer size and extra `journalctl` arguments.
//!
//! The file itself is read by the caller; this module turns its text into a
//! [`Config`]. The two appearance settings that are floating-point numbers
//! (`font_size` and `opacity`) are kept as the texts the file gave for them,
//! in file order, for the caller to read as numbers.

use vstd::prelude::*;
use crate::text::{
    chars_of, find_char, find_from, lemma_find_from_bounds, lower_all, lower_vec, parse_i32_vec,
    parse_signed, parse_unsigned, parse_unsigned_vec, same_chars, slice, string_of, string_views,
    digit_value, digits_value, lemma_decimal_digits, lemma_find_from_is, lemma_find_from_shift, lemma_parse_decimal, lemma_trim_bounds, lemma_trim_idempotent,
    lemma_trim_is, lemma_trim_plain, lemma_words_trim, decimal, is_space, is_digit, trim, trim_vec,
    words, words_vec,
};

verus! {

/// Panel height when the file gives none.
pub const DEFAULT_HEIGHT: u32 = 280;

/// Left margin when the file gives none.
pub const DEFAULT_MARGIN_LEFT: i32 = 24;

/// Top margin when the file gives none.
pub const DEFAULT_MARGIN_TOP: i32 = 48;

/// Bottom margin when the file gives none.
pub const DEFAULT_MARGIN_BOTTOM: i32 = 72;

/// Number of journal lines kept when the file gives none.
pub const DEFAULT_MAX_LINES: usize = 200;

/// Output width used when the display cannot report its current mode.
pub const FALLBACK_WIDTH: u32 = 1920;

/// `v` limited to the range `lo..=hi` (`Ord::clamp`).
pub open spec fn clamp(v: int, lo: int, hi: int) -> int {
    if v < lo {
        lo
    } else if v > hi {
        hi
    } else {
        v
    }
}

// ---------------------------------------------------------------------------
// Position
// ---------------------------------------------------------------------------

/// Vertical edge of the screen that the panel sits on.
#[derive(Debug, Clone, Copy, PartialEq, Eq, Structural)]
pub enum Position {
    Top,
    Bottom,
}

impl Default for Position {
    fn default() -> (r: Self)
        ensures
            r == Position::Bottom,
    {
        Position::Bottom
    }
}

/// The position a `position=` value names: `top` or `bottom`, in any ASCII case.
pub open spec fn position_from(value: Seq<char>) -> Option<Position> {
    let l = lower_all(value);
    if l == "top"@ {
        Some(Position::Top)
    } else if l == "bottom"@ {
        Some(Position::Bottom)
    } else {
        None
    }
}

impl Position {
    /// Reads a `position=` value; `None` for anything but `top` or `bottom`.
    pub fn parse(value: &str) -> (r: Option<Position>)
        ensures
            r == position_from(value@),
    {
        Self::parse_chars(&chars_of(value))
    }

    fn parse_chars(value: &Vec<char>) -> (r: Option<Position>)
        ensures
            r == position_from(value@),
    {
        let l = lower_vec(value);
        if same_chars(&l, &chars_of("top")) {
            Some(Position::Top)
        } else if same_chars(&l, &chars_of("bottom")) {
            Some(Position::Bottom)
        } else {
            None
        }
    }
}

// ---------------------------------------------------------------------------
// Width
// ---------------------------------------------------------------------------

/// Panel width: the whole active output, half of it, or an explicit pixel size.
#[derive(Debug, Clone, Copy, PartialEq, Eq, Structural)]
pub enum WidthSpec {
    Full,
    Half,
    Pixels(u32),
}

impl Default for WidthSpec {
    fn default() -> (r: Self)
        ensures
            r == WidthSpec::Full,
    {
        WidthSpec::Full
    }
}

/// The width a `width=` value names. After trimming: `full` or `screen` (any
/// ASCII case) or `0` is the full output, `half` (any ASCII case) half of it,
/// and an unsigned 32-bit number a pixel width, limited to `120..=8192`.
pub open spec fn width_spec_from(value: Seq<char>) -> Option<WidthSpec> {
    let v = trim(value);
    let l = lower_all(v);
    if l == "full"@ || l == "screen"@ || v == "0"@ {
        Some(WidthSpec::Full)
    } else if l == "half"@ {
        Some(WidthSpec::Half)
    } else {
        match parse_unsigned(v, u32::MAX as nat) {
            Some(px) => Some(WidthSpec::Pixels(clamp(px as int, 120, 8192) as u32)),
            None => None,
        }
    }
}

/// The panel width for `spec`, leaving `gutter` free on each side of an
/// output-relative width; `output` is the active output's width when known.
pub open spec fn resolved_width(spec: WidthSpec, gutter: u32, output: Option<u32>) -> u32 {
    let out: int = match output {
        Some(w) => w as int,
        None => FALLBACK_WIDTH as int,
    };
    match spec {
        WidthSpec::Full => clamp(
            if out >= 2 * gutter {
                out - 2 * gutter
            } else {
                0
            },
            120,
            8192,
        ) as u32,
        WidthSpec::Half => clamp(
            if out / 2 >= gutter {
                out / 2 - gutter
            } else {
                0
            },
            120,
            8192,
        ) as u32,
        WidthSpec::Pixels(px) => px,
    }
}

/// `v` limited to `lo..=hi`.
fn clamp_u32(v: u32, lo: u32, hi: u32) -> (r: u32)
    requires
        lo <= hi,
    ensures
        r == clamp(v as int, lo as int, hi as int),
{
    if v < lo {
        lo
    } else if v > hi {
        hi
    } else {
        v
    }
}

impl WidthSpec {
    /// Reads a `width=` value; `None` when it names no width.
    pub fn parse(value: &str) -> (r: Option<WidthSpec>)
        ensures
            r == width_spec_from(value@),
            r matches Some(WidthSpec::Pixels(px)) ==> 120 <= px <= 8192,
    {
        Self::parse_chars(&chars_of(value))
    }

    fn parse_chars(value: &Vec<char>) -> (r: Option<WidthSpec>)
        ensures
            r == width_spec_from(value@),
            r matches Some(WidthSpec::Pixels(px)) ==> 120 <= px <= 8192,
    {
        let v = trim_vec(value);
        let l = lower_vec(&v);
        if same_chars(&l, &chars_of("full")) || same_chars(&l, &chars_of("screen")) || same_chars(
            &v,
            &chars_of("0"),
        ) {
            return Some(WidthSpec::Full);
        }
        if same_chars(&l, &chars_of("half")) {
            return Some(WidthSpec::Half);
        }
        match parse_unsigned_vec(&v, 0xffff_ffff) {
            Some(px) => Some(WidthSpec::Pixels(clamp_u32(px as u32, 120, 8192))),
            None => None,
        }
    }

    /// The panel width in pixels. `gutter` is the margin left free on each
    /// side; it only applies to output-relative widths, since explicit pixel
    /// sizes are taken as given. `output_width` is the width of the active
    /// output's current mode, `None` when it could not be read.
    pub fn resolve(self, gutter: u32, output_width: Option<u32>) -> (r: u32)
        requires
            self is Full ==> 2 * gutter <= u32::MAX,
        ensures
            r == resolved_width(self, gutter, output_width),
            !(self is Pixels) ==> 120 <= r <= 8192,
    {
        let out: u32 = match output_width {
            Some(w) => w,
            None => FALLBACK_WIDTH,
        };
        match self {
            WidthSpec::Full => clamp_u32(out.saturating_sub(gutter * 2), 120, 8192),
            WidthSpec::Half => clamp_u32((out / 2).saturating_sub(gutter), 120, 8192),
            WidthSpec::Pixels(px) => px,
        }
    }
}

// ---------------------------------------------------------------------------
// The configuration
// ---------------------------------------------------------------------------

/// The panel's settings.
#[derive(Debug, Clone)]
pub struct Config {
    pub width: WidthSpec,
    pub height: u32,
    pub position: Position,
    pub margin_left: i32,
    pub margin_top: i32,
    pub margin_bottom: i32,
    /// Every `font_size=` value of the file, trimmed, in file order.
    pub font_size_values: Vec<String>,
    /// Every `opacity=` value of the file, trimmed, in file order.
    pub opacity_values: Vec<String>,
    pub max_lines: usize,
    /// Extra arguments appended to the default `journalctl` invocation.
    pub journal_args: Vec<String>,
}

/// A [`Config`] with its strings taken as character sequences.
pub struct ConfigView {
    pub width: WidthSpec,
    pub height: u32,
    pub position: Position,
    pub margin_left: i32,
    pub margin_top: i32,
    pub margin_bottom: i32,
    pub font_size_values: Seq<Seq<char>>,
    pub opacity_values: Seq<Seq<char>>,
    pub max_lines: usize,
    pub journal_args: Seq<Seq<char>>,
}

impl View for Config {
    type V = ConfigView;

    open spec fn view(&self) -> ConfigView {
        ConfigView {
            width: self.width,
            height: self.height,
            position: self.position,
            margin_left: self.margin_left,
            margin_top: self.margin_top,
            margin_bottom: self.margin_bottom,
            font_size_values: string_views(self.font_size_values@),
            opacity_values: string_views(self.opacity_values@),
            max_lines: self.max_lines,
            journal_args: string_views(self.journal_args@),
        }
    }
}

impl ConfigView {
    /// The ranges that every setting read from a file keeps to.
    pub open spec fn valid(self) -> bool {
        &&& (self.width matches WidthSpec::Pixels(px) ==> 120 <= px <= 8192)
        &&& 80 <= self.height <= 4096
        &&& self.margin_left >= 0
        &&& self.margin_top >= 0
        &&& self.margin_bottom >= 0
        &&& 20 <= self.max_lines <= 5000
    }
}

/// The settings used where the file says nothing.
pub open spec fn default_config() -> ConfigView {
    ConfigView {
        width: WidthSpec::Full,
        height: DEFAULT_HEIGHT,
        position: Position::Bottom,
        margin_left: DEFAULT_MARGIN_LEFT,
        margin_top: DEFAULT_MARGIN_TOP,
        margin_bottom: DEFAULT_MARGIN_BOTTOM,
        font_size_values: Seq::empty(),
        opacity_values: Seq::empty(),
        max_lines: DEFAULT_MAX_LINES,
        journal_args: Seq::empty(),
    }
}

/// `c` with the setting `key = value` applied. A value that does not read as
/// what the key wants leaves `c` as it is, and so does an unknown key.
pub open spec fn apply_setting(c: ConfigView, key: Seq<char>, value: Seq<char>) -> ConfigView {
    if key == "width"@ {
        match width_spec_from(value) {
            Some(w) => ConfigView { width: w, ..c },
            None => c,
        }
    } else if key == "height"@ {
        match parse_unsigned(value, u32::MAX as nat) {
            Some(v) => ConfigView { height: clamp(v as int, 80, 4096) as u32, ..c },
            None => c,
        }
    } else if key == "position"@ {
        match position_from(value) {
            Some(p) => ConfigView { position: p, ..c },
            None => c,
        }
    } else if key == "margin_left"@ {
        match parse_signed(value, i32::MIN as int, i32::MAX as int) {
            Some(v) => ConfigView { margin_left: clamp(v, 0, i32::MAX as int) as i32, ..c },
            None => c,
        }
    } else if key == "margin_top"@ {
        match parse_signed(value, i32::MIN as int, i32::MAX as int) {
            Some(v) => ConfigView { margin_top: clamp(v, 0, i32::MAX as int) as i32, ..c },
            None => c,
        }
    } else if key == "margin_bottom"@ {
        match parse_signed(value, i32::MIN as int, i32::MAX as int) {
            Some(v) => ConfigView { margin_bottom: clamp(v, 0, i32::MAX as int) as i32, ..c },
            None => c,
        }
    } else if key == "font_size"@ {
        ConfigView { font_size_values: c.font_size_values.push(value), ..c }
    } else if key == "opacity"@ {
        ConfigView { opacity_values: c.opacity_values.push(value), ..c }
    } else if key == "max_lines"@ {
        match parse_unsigned(value, usize::MAX as nat) {
            Some(v) => ConfigView { max_lines: clamp(v as int, 20, 5000) as usize, ..c },
            None => c,
        }
    } else if key == "journal_args"@ {
        ConfigView { journal_args: words(value), ..c }
    } else {
        c
    }
}

/// The setting a line of the file makes, as its key and value: blank lines,
/// lines whose first non-blank character is `#`, and lines without `=` make
/// none; any other line sets the key before its first `=` to the value after
/// it, both trimmed.
pub open spec fn line_setting(line: Seq<char>) -> Option<(Seq<char>, Seq<char>)> {
    let t = trim(line);
    if t.len() == 0 || t[0] == '#' {
        None
    } else {
        let k = find_from(t, '=', 0);
        if k >= t.len() {
            None
        } else {
            Some((trim(t.subrange(0, k)), trim(t.subrange(k + 1, t.len() as int))))
        }
    }
}

/// `c` with one line of the file applied.
pub open spec fn apply_line(c: ConfigView, line: Seq<char>) -> ConfigView {
    match line_setting(line) {
        Some((key, value)) => apply_setting(c, key, value),
        None => c,
    }
}

/// `c` with the lines of `s` that start at or after `i` applied in order.
/// Lines end at `\n`; a `\r` before it is white space and trimmed with the rest.
pub open spec fn apply_lines_from(c: ConfigView, s: Seq<char>, i: int) -> ConfigView
    decreases s.len() + 1 - i,
{
    if 0 <= i < s.len() {
        let e = find_from(s, '\n', i);
        proof {
            lemma_find_from_bounds(s, '\n', i);
        }
        apply_lines_from(apply_line(c, s.subrange(i, e)), s, e + 1)
    } else {
        c
    }
}

/// The settings that the text of a configuration file gives.
pub open spec fn config_from_text(s: Seq<char>) -> ConfigView {
    apply_lines_from(default_config(), s, 0)
}

impl Default for Config {
    fn default() -> (r: Self)
        ensures
            r@ == default_config(),
    {
        let r = Config {
            width: WidthSpec::Full,
            height: DEFAULT_HEIGHT,
            position: Position::Bottom,
            margin_left: DEFAULT_MARGIN_LEFT,
            margin_top: DEFAULT_MARGIN_TOP,
            margin_bottom: DEFAULT_MARGIN_BOTTOM,
            font_size_values: Vec::new(),
            opacity_values: Vec::new(),
            max_lines: DEFAULT_MAX_LINES,
            journal_args: Vec::new(),
        };
        assert(r@.font_size_values =~= Seq::<Seq<char>>::empty());
        assert(r@.opacity_values =~= Seq::<Seq<char>>::empty());
        assert(r@.journal_args =~= Seq::<Seq<char>>::empty());
        r
    }
}

/// A signed 32-bit value read from `v`, raised to zero when negative.
fn non_negative_i32(v: &Vec<char>) -> (r: Option<i32>)
    ensures
        r == (match parse_signed(v@, i32::MIN as int, i32::MAX as int) {
            Some(n) => Some(clamp(n, 0, i32::MAX as int) as i32),
            None => None::<i32>,
        }),
{
    match parse_i32_vec(v) {
        Some(n) => Some(if n < 0 {
            0
        } else {
            n
        }),
        None => None,
    }
}

impl Config {
    /// Reads the text of a configuration file. Unknown keys, comments, and
    /// values that do not read are skipped; a later line for a key overrides
    /// an earlier one.
    pub fn parse(text: &str) -> (r: Config)
        ensures
            r@ == config_from_text(text@),
            r@.valid(),
    {
        let v = chars_of(text);
        let mut c = Config::default();
        let mut i: usize = 0;
        proof {
            lemma_apply_lines_valid(default_config(), v@, 0);
        }
        while i < v.len()
            invariant
                i <= v.len(),
                config_from_text(v@) == apply_lines_from(c@, v@, i as int),
            decreases v.len() - i,
        {
            let e = find_char(&v, '\n', i);
            proof {
                lemma_find_from_bounds(v@, '\n', i as int);
            }
            let ghost c0 = c@;
            assert(apply_lines_from(c0, v@, i as int) == apply_lines_from(
                apply_line(c0, v@.subrange(i as int, e as int)),
                v@,
                e + 1,
            ));
            let line = slice(&v, i, e);
            c.apply_line(&line);
            assert(apply_lines_from(c@, v@, v.len() as int) == c@);
            i = if e < v.len() {
                e + 1
            } else {
                e
            };
        }
        c
    }

    /// Applies one line of a configuration file.
    fn apply_line(&mut self, line: &Vec<char>)
        ensures
            final(self)@ == apply_line(old(self)@, line@),
    {
        let t = trim_vec(line);
        if t.len() == 0 || t[0] == '#' {
            return;
        }
        let k = find_char(&t, '=', 0);
        proof {
            lemma_find_from_bounds(t@, '=', 0);
        }
        if k >= t.len() {
            return;
        }
        let key = trim_vec(&slice(&t, 0, k));
        let value = trim_vec(&slice(&t, k + 1, t.len()));
        self.apply_setting(&key, &value);
    }

    /// Applies one `key = value` setting.
    fn apply_setting(&mut self, key: &Vec<char>, value: &Vec<char>)
        ensures
            final(self)@ == apply_setting(old(self)@, key@, value@),
    {
        if same_chars(key, &chars_of("width")) {
            if let Some(w) = WidthSpec::parse_chars(value) {
                self.width = w;
            }
        } else if same_chars(key, &chars_of("height")) {
            if let Some(v) = parse_unsigned_vec(value, 0xffff_ffff) {
                self.height = clamp_u32(v as u32, 80, 4096);
            }
        } else if same_chars(key, &chars_of("position")) {
            if let Some(p) = Position::parse_chars(value) {
                self.position = p;
            }
        } else if same_chars(key, &chars_of("margin_left")) {
            if let Some(v) = non_negative_i32(value) {
                self.margin_left = v;
            }
        } else if same_chars(key, &chars_of("margin_top")) {
            if let Some(v) = non_negative_i32(value) {
                self.margin_top = v;
            }
        } else if same_chars(key, &chars_of("margin_bottom")) {
            if let Some(v) = non_negative_i32(value) {
                self.margin_bottom = v;
            }
        } else if same_chars(key, &chars_of("font_size")) {
            let ghost before = string_views(self.font_size_values@);
            self.font_size_values.push(string_of(value));
            assert(string_views(self.font_size_values@) =~= before.push(value@));
        } else if same_chars(key, &chars_of("opacity")) {
            let ghost before = string_views(self.opacity_values@);
            self.opacity_values.push(string_of(value));
            assert(string_views(self.opacity_values@) =~= before.push(value@));
        } else if same_chars(key, &chars_of("max_lines")) {
            if let Some(v) = parse_unsigned_vec(value, usize::MAX as u64) {
                let n: usize = v as usize;
                self.max_lines = if n < 20 {
                    20
                } else if n > 5000 {
                    5000
                } else {
                    n
                };
            }
        } else if same_chars(key, &chars_of("journal_args")) {
            self.journal_args = words_vec(value);
        }
    }
}

// ---------------------------------------------------------------------------
// Placing the panel
// ---------------------------------------------------------------------------

/// Distances of the panel from the screen's edges.
#[derive(Debug, Clone, Copy, PartialEq, Eq, Structural)]
pub struct SurfaceMargin {
    pub top: i32,
    pub right: i32,
    pub bottom: i32,
    pub left: i32,
}

/// The margins of a panel at `position`: the left margin, and the top or
/// bottom margin of the edge it sits on.
pub open spec fn surface_margin_for(c: ConfigView) -> SurfaceMargin {
    match c.position {
        Position::Top => SurfaceMargin { top: c.margin_top, right: 0, bottom: 0, left: c.margin_left },
        Position::Bottom => SurfaceMargin {
            top: 0,
            right: 0,
            bottom: c.margin_bottom,
            left: c.margin_left,
        },
    }
}

/// The gutter kept free on each side of an output-relative width: the left
/// margin, mirrored on the right.
pub open spec fn gutter_for(c: ConfigView) -> u32 {
    if c.margin_left < 0 {
        0
    } else {
        c.margin_left as u32
    }
}

impl Config {
    /// The panel's margins, anchored to the left edge and to the edge of
    /// its position.
    pub fn surface_margin(&self) -> (m: SurfaceMargin)
        ensures
            m == surface_margin_for(self@),
    {
        match self.position {
            Position::Top => SurfaceMargin {
                top: self.margin_top,
                right: 0,
                bottom: 0,
                left: self.margin_left,
            },
            Position::Bottom => SurfaceMargin {
                top: 0,
                right: 0,
                bottom: self.margin_bottom,
                left: self.margin_left,
            },
        }
    }

    /// The panel's width in pixels on an output `output_width` wide (`None`
    /// when unknown), keeping the left margin free on both sides.
    pub fn panel_width(&self, output_width: Option<u32>) -> (r: u32)
        ensures
            r == resolved_width(self.width, gutter_for(self@), output_width),
    {
        let gutter: u32 = if self.margin_left < 0 {
            0
        } else {
            self.margin_left as u32
        };
        self.width.resolve(gutter, output_width)
    }
}

// ---------------------------------------------------------------------------
// Laws
// ---------------------------------------------------------------------------

/// Every setting read from a file stays in its range, whatever the file says.
pub proof fn lemma_apply_setting_valid(c: ConfigView, key: Seq<char>, value: Seq<char>)
    requires
        c.valid(),
    ensures
        apply_setting(c, key, value).valid(),
{
}

/// Applying any line keeps the settings in their ranges.
pub proof fn lemma_apply_line_valid(c: ConfigView, line: Seq<char>)
    requires
        c.valid(),
    ensures
        apply_line(c, line).valid(),
{
    if let Some((key, value)) = line_setting(line) {
        lemma_apply_setting_valid(c, key, value);
    }
}

/// Applying any sequence of lines keeps the settings in their ranges.
pub proof fn lemma_apply_lines_valid(c: ConfigView, s: Seq<char>, i: int)
    requires
        c.valid(),
    ensures
        apply_lines_from(c, s, i).valid(),
    decreases s.len() + 1 - i,
{
    if 0 <= i < s.len() {
        let e = find_from(s, '\n', i);
        lemma_find_from_bounds(s, '\n', i);
        lemma_apply_line_valid(c, s.subrange(i, e));
        lemma_apply_lines_valid(apply_line(c, s.subrange(i, e)), s, e + 1);
    }
}

/// The defaults are in range, and so is every configuration read from text.
pub proof fn lemma_config_from_text_valid(s: Seq<char>)
    ensures
        default_config().valid(),
        config_from_text(s).valid(),
{
    lemma_apply_lines_valid(default_config(), s, 0);
}


/// Applying the lines of `p + b` from inside `b` is applying those of `b`.
proof fn lemma_apply_lines_shift(c: ConfigView, p: Seq<char>, b: Seq<char>, j: int)
    requires
        0 <= j <= b.len() + 1,
    ensures
        apply_lines_from(c, p + b, p.len() + j) == apply_lines_from(c, b, j),
    decreases b.len() + 1 - j,
{
    if j < b.len() {
        let e = find_from(b, '\n', j);
        lemma_find_from_bounds(b, '\n', j);
        lemma_find_from_shift(p, b, '\n', j);
        assert((p + b).subrange(p.len() + j, p.len() + e) =~= b.subrange(j, e));
        lemma_apply_lines_shift(apply_line(c, b.subrange(j, e)), p, b, e + 1);
    }
}

/// In `a + "\n" + b`, the first `\n` at or after `i <= a.len()` is that of
/// `a`, or the one that joins the two.
proof fn lemma_find_newline_joined(a: Seq<char>, b: Seq<char>, i: int)
    requires
        0 <= i <= a.len(),
    ensures
        find_from(a + seq!['\n'] + b, '\n', i) == find_from(a, '\n', i),
    decreases a.len() - i,
{
    let s = a + seq!['\n'] + b;
    if i < a.len() {
        assert(s[i] == a[i]);
        if a[i] != '\n' {
            lemma_find_newline_joined(a, b, i + 1);
        }
    } else {
        assert(s[i] == '\n');
    }
}

proof fn lemma_apply_lines_joined(c: ConfigView, a: Seq<char>, b: Seq<char>, i: int)
    requires
        0 <= i <= a.len(),
    ensures
        apply_lines_from(c, a + seq!['\n'] + b, i) == apply_lines_from(
            apply_lines_from(c, a, i),
            b,
            0,
        ),
    decreases a.len() - i,
{
    let s = a + seq!['\n'] + b;
    let e = find_from(a, '\n', i);
    lemma_find_from_bounds(a, '\n', i);
    lemma_find_newline_joined(a, b, i);
    assert(s.subrange(i, e) =~= a.subrange(i, e));
    let c1 = apply_line(c, a.subrange(i, e));
    if e < a.len() {
        lemma_apply_lines_joined(c1, a, b, e + 1);
    } else {
        assert(apply_lines_from(c1, a, e + 1) == c1);
        lemma_apply_lines_shift(c1, a + seq!['\n'], b, 0);
        assert(a + seq!['\n'] + b == (a + seq!['\n']) + b);
        if i == a.len() {
            let t = trim(a.subrange(i, e));
            assert(a.subrange(i, e) =~= Seq::<char>::empty());
            assert(t =~= Seq::<char>::empty());
            assert(c1 == c);
        }
    }
}

/// Reading `a`, a line break, then `b` gives what reading `b` on top of
/// the settings that `a` gives yields: the file is read line by line, and a
/// later line for a key overrides an earlier one.
pub proof fn lemma_config_joined(a: Seq<char>, b: Seq<char>)
    ensures
        config_from_text(a + seq!['\n'] + b) == apply_lines_from(config_from_text(a), b, 0),
{
    lemma_apply_lines_joined(default_config(), a, b, 0);
}

/// A line that is blank or a comment changes nothing.
pub proof fn lemma_comment_line_ignored(c: ConfigView, line: Seq<char>)
    requires
        trim(line).len() == 0 || trim(line)[0] == '#',
    ensures
        apply_line(c, line) == c,
{
}


/// The position names are read in any ASCII case.
pub proof fn lemma_position_ignores_case(value: Seq<char>)
    ensures
        position_from(lower_all(value)) == position_from(value),
{
    assert(lower_all(lower_all(value)) =~= lower_all(value));
}

/// White space around a width value does not matter.
pub proof fn lemma_width_ignores_space(value: Seq<char>)
    ensures
        width_spec_from(trim(value)) == width_spec_from(value),
{
    lemma_trim_idempotent(value);
}


// ---------------------------------------------------------------------------
// Lines that set nothing, and lines that override
// ---------------------------------------------------------------------------

/// `key` is one of the ten keys a configuration file can set.
pub open spec fn known_key(key: Seq<char>) -> bool {
    ||| key == "width"@
    ||| key == "height"@
    ||| key == "position"@
    ||| key == "margin_left"@
    ||| key == "margin_top"@
    ||| key == "margin_bottom"@
    ||| key == "font_size"@
    ||| key == "opacity"@
    ||| key == "max_lines"@
    ||| key == "journal_args"@
}

/// `value` reads as what `key` wants (the two floating-point keys and
/// `journal_args` take any text).
pub open spec fn value_accepted(key: Seq<char>, value: Seq<char>) -> bool {
    if key == "width"@ {
        width_spec_from(value) is Some
    } else if key == "height"@ {
        parse_unsigned(value, u32::MAX as nat) is Some
    } else if key == "position"@ {
        position_from(value) is Some
    } else if key == "margin_left"@ || key == "margin_top"@ || key == "margin_bottom"@ {
        parse_signed(value, i32::MIN as int, i32::MAX as int) is Some
    } else if key == "font_size"@ || key == "opacity"@ {
        true
    } else if key == "max_lines"@ {
        parse_unsigned(value, usize::MAX as nat) is Some
    } else {
        true
    }
}

/// A line that sets nothing: blank, a comment, without `=`, with an unknown
/// key, or with a known key (other than `journal_args` and the two
/// floating-point keys) whose value does not read.
pub open spec fn line_changes_nothing(line: Seq<char>) -> bool {
    match line_setting(line) {
        None => true,
        Some((key, value)) => !known_key(key) || (key != "journal_args"@ && key != "font_size"@
            && key != "opacity"@ && !value_accepted(key, value)),
    }
}

/// A `font_size=` or `opacity=` line, whose text is kept for the caller to
/// read as a number.
pub open spec fn line_sets_float_text(line: Seq<char>) -> bool {
    line_setting(line) matches Some((key, _)) && (key == "font_size"@ || key == "opacity"@)
}

impl ConfigView {
    /// All settings but the two lists of floating-point texts are equal.
    pub open spec fn same_except_float_texts(self, other: ConfigView) -> bool {
        &&& self.width == other.width
        &&& self.height == other.height
        &&& self.position == other.position
        &&& self.margin_left == other.margin_left
        &&& self.margin_top == other.margin_top
        &&& self.margin_bottom == other.margin_bottom
        &&& self.max_lines == other.max_lines
        &&& self.journal_args == other.journal_args
    }
}

/// Every line of `s` at or after `i` sets nothing, or, when `floats` holds,
/// is a `font_size=` or `opacity=` line.
pub open spec fn lines_ignorable_from(s: Seq<char>, i: int, floats: bool) -> bool
    decreases s.len() + 1 - i,
{
    if 0 <= i < s.len() {
        let e = find_from(s, '\n', i);
        proof {
            lemma_find_from_bounds(s, '\n', i);
        }
        let line = s.subrange(i, e);
        (line_changes_nothing(line) || (floats && line_sets_float_text(line)))
            && lines_ignorable_from(s, e + 1, floats)
    } else {
        true
    }
}

proof fn lemma_float_keys_distinct()
    ensures
        "font_size"@ != "width"@,
        "font_size"@ != "height"@,
        "font_size"@ != "position"@,
        "font_size"@ != "margin_left"@,
        "font_size"@ != "margin_top"@,
        "font_size"@ != "margin_bottom"@,
        "opacity"@ != "width"@,
        "opacity"@ != "height"@,
        "opacity"@ != "position"@,
        "opacity"@ != "margin_left"@,
        "opacity"@ != "margin_top"@,
        "opacity"@ != "margin_bottom"@,
        "opacity"@ != "font_size"@,
{
    reveal_strlit("font_size");
    reveal_strlit("opacity");
    reveal_strlit("width");
    reveal_strlit("height");
    reveal_strlit("position");
    reveal_strlit("margin_left");
    reveal_strlit("margin_top");
    reveal_strlit("margin_bottom");
    assert("font_size"@[0] != "width"@[0]);
    assert("font_size"@[0] != "height"@[0]);
    assert("font_size"@[0] != "position"@[0]);
    assert("font_size"@[0] != "margin_left"@[0]);
    assert("font_size"@[0] != "margin_top"@[0]);
    assert("font_size"@[0] != "margin_bottom"@[0]);
    assert("opacity"@[0] != "width"@[0]);
    assert("opacity"@[0] != "height"@[0]);
    assert("opacity"@[0] != "position"@[0]);
    assert("opacity"@[0] != "margin_left"@[0]);
    assert("opacity"@[0] != "margin_top"@[0]);
    assert("opacity"@[0] != "margin_bottom"@[0]);
    assert("opacity"@[0] != "font_size"@[0]);
}

/// A line that sets nothing leaves the settings as they are; a
/// floating-point line changes only its list of texts.
pub proof fn lemma_line_changes_nothing(c: ConfigView, line: Seq<char>)
    ensures
        line_changes_nothing(line) ==> apply_line(c, line) == c,
        line_sets_float_text(line) ==> apply_line(c, line).same_except_float_texts(c),
{
    lemma_float_keys_distinct();
}

/// Settings that agree but for the floating-point texts still agree after
/// the same line.
proof fn lemma_apply_line_same(c1: ConfigView, c2: ConfigView, line: Seq<char>)
    requires
        c1.same_except_float_texts(c2),
    ensures
        apply_line(c1, line).same_except_float_texts(apply_line(c2, line)),
{
}

proof fn lemma_apply_lines_same(c1: ConfigView, c2: ConfigView, s: Seq<char>, i: int)
    requires
        c1.same_except_float_texts(c2),
    ensures
        apply_lines_from(c1, s, i).same_except_float_texts(apply_lines_from(c2, s, i)),
    decreases s.len() + 1 - i,
{
    if 0 <= i < s.len() {
        let e = find_from(s, '\n', i);
        lemma_find_from_bounds(s, '\n', i);
        lemma_apply_line_same(c1, c2, s.subrange(i, e));
        lemma_apply_lines_same(apply_line(c1, s.subrange(i, e)), apply_line(c2, s.subrange(i, e)), s, e + 1);
    }
}

proof fn lemma_apply_ignorable_lines(c: ConfigView, s: Seq<char>, i: int, floats: bool)
    requires
        lines_ignorable_from(s, i, floats),
    ensures
        apply_lines_from(c, s, i).same_except_float_texts(c),
        !floats ==> apply_lines_from(c, s, i) == c,
    decreases s.len() + 1 - i,
{
    if 0 <= i < s.len() {
        let e = find_from(s, '\n', i);
        lemma_find_from_bounds(s, '\n', i);
        let line = s.subrange(i, e);
        lemma_line_changes_nothing(c, line);
        let c1 = apply_line(c, line);
        lemma_apply_ignorable_lines(c1, s, e + 1, floats);
    }
}

/// Lines that set nothing change nothing, whether they come before or after
/// the rest of the file; `font_size=` and `opacity=` lines change nothing
/// but the texts kept for those two settings.
pub proof fn lemma_ignored_lines_change_nothing(a: Seq<char>, extra: Seq<char>)
    requires
        lines_ignorable_from(extra, 0, true),
    ensures
        config_from_text(a + seq!['\n'] + extra).same_except_float_texts(config_from_text(a)),
        config_from_text(extra + seq!['\n'] + a).same_except_float_texts(config_from_text(a)),
        lines_ignorable_from(extra, 0, false) ==> config_from_text(a + seq!['\n'] + extra)
            == config_from_text(a) && config_from_text(extra + seq!['\n'] + a) == config_from_text(a),
{
    lemma_config_joined(a, extra);
    lemma_apply_ignorable_lines(config_from_text(a), extra, 0, true);
    lemma_config_joined(extra, a);
    lemma_apply_ignorable_lines(default_config(), extra, 0, true);
    lemma_apply_lines_same(config_from_text(extra), default_config(), a, 0);
    if lines_ignorable_from(extra, 0, false) {
        lemma_apply_ignorable_lines(config_from_text(a), extra, 0, false);
        lemma_apply_ignorable_lines(default_config(), extra, 0, false);
    }
}

/// A last line `key=value` applies that setting on top of what comes
/// before it, with the value trimmed.
#[verifier::rlimit(40)]
proof fn lemma_final_setting_line(c1: Seq<char>, key: Seq<char>, v: Seq<char>)
    requires
        key.len() > 0,
        !is_space(key[0]),
        !is_space(key[key.len() - 1]),
        key[0] != '#',
        forall|i: int| 0 <= i < key.len() ==> #[trigger] key[i] != '=' && key[i] != '\n',
        forall|i: int| 0 <= i < v.len() ==> #[trigger] v[i] != '\n',
    ensures
        config_from_text(c1 + seq!['\n'] + (key + seq!['='] + v)) == apply_setting(
            config_from_text(c1),
            key,
            trim(v),
        ),
{
    let l = key + seq!['='] + v;
    let kl = key.len() as int;
    assert forall|j: int| 0 <= j < kl implies l[j] == key[j] by {}
    assert(l[kl] == '=');
    assert forall|j: int| 0 <= j < v.len() implies l[kl + 1 + j] == v[j] by {}
    // the line holds no line break
    assert forall|j: int| 0 <= j < l.len() implies #[trigger] l[j] != '\n' by {
        if j < kl {
            assert(l[j] == key[j]);
        } else if j > kl {
            assert(l[j] == v[j - kl - 1]);
        }
    }
    lemma_find_from_is(l, '\n', 0, l.len() as int);
    assert(l.subrange(0, l.len() as int) =~= l);
    let c = config_from_text(c1);
    assert(apply_lines_from(c, l, 0) == apply_lines_from(apply_line(c, l), l, l.len() as int + 1));
    // the trimmed line ends where the trimmed value does
    let (vlo, vhi) = lemma_trim_bounds(v);
    let h: int = if vlo < vhi {
        kl + 1 + vhi
    } else {
        kl + 1
    };
    assert forall|k: int| h <= k < l.len() implies is_space(#[trigger] l[k]) by {
        assert(l[k] == v[k - kl - 1]);
    }
    if vlo < vhi {
        assert(l[h - 1] == v[vhi - 1]);
    }
    lemma_trim_is(l, 0, h);
    let t = l.subrange(0, h);
    assert(t[0] == key[0]);
    assert forall|j: int| 0 <= j < kl implies #[trigger] t[j] != '=' by {
        assert(t[j] == key[j]);
    }
    lemma_find_from_is(t, '=', 0, kl);
    assert(t.subrange(0, kl) =~= key);
    lemma_trim_plain(key);
    let w = t.subrange(kl + 1, h);
    if vlo < vhi {
        assert(w =~= v.subrange(0, vhi));
        lemma_trim_is(w, vlo, vhi);
        assert(w.subrange(vlo, vhi) =~= v.subrange(vlo, vhi));
    } else {
        assert(w =~= Seq::<char>::empty());
        lemma_trim_is(w, 0, 0);
        assert(w.subrange(0, 0) =~= v.subrange(vlo, vhi));
    }
    assert(line_setting(l) == Some((key, trim(v))));
    lemma_config_joined(c1, l);
}

/// A last `height=` line with a number overrides every earlier one: the
/// height is that number limited to `80..=4096`, and nothing else changes.
pub proof fn lemma_final_height_line(c1: Seq<char>, n: u32)
    ensures
        config_from_text(c1 + seq!['\n'] + ("height="@ + decimal(n as nat))) == (ConfigView {
            height: clamp(n as int, 80, 4096) as u32,
            ..config_from_text(c1)
        }),
{
    reveal_strlit("height=");
    reveal_strlit("height");
    reveal_strlit("width");
    let key = "height"@;
    assert("height="@ =~= key + seq!['=']);
    let d = decimal(n as nat);
    assert(("height="@ + d) =~= key + seq!['='] + d);
    lemma_parse_decimal(n as nat, u32::MAX as nat);
    lemma_decimal_digits(n as nat);
    assert forall|i: int| 0 <= i < d.len() implies #[trigger] d[i] != '\n' by {
        assert(is_digit(d[i]));
    }
    lemma_trim_plain(d);
    assert forall|i: int| 0 <= i < key.len() implies #[trigger] key[i] != '=' && key[i] != '\n' by {}
    lemma_final_setting_line(c1, key, d);
    assert(key != "width"@);
}

/// A last `journal_args=` line overrides every earlier one: the extra
/// arguments are the words of its value, and nothing else changes.
pub proof fn lemma_final_journal_args_line(c1: Seq<char>, s: Seq<char>)
    requires
        forall|i: int| 0 <= i < s.len() ==> #[trigger] s[i] != '\n',
    ensures
        config_from_text(c1 + seq!['\n'] + ("journal_args="@ + s)) == (ConfigView {
            journal_args: words(s),
            ..config_from_text(c1)
        }),
{
    reveal_strlit("journal_args=");
    reveal_strlit("journal_args");
    reveal_strlit("width");
    reveal_strlit("height");
    reveal_strlit("position");
    reveal_strlit("margin_left");
    reveal_strlit("margin_top");
    reveal_strlit("margin_bottom");
    reveal_strlit("font_size");
    reveal_strlit("opacity");
    reveal_strlit("max_lines");
    let key = "journal_args"@;
    assert("journal_args="@ =~= key + seq!['=']);
    assert(("journal_args="@ + s) =~= key + seq!['='] + s);
    assert forall|i: int| 0 <= i < key.len() implies #[trigger] key[i] != '=' && key[i] != '\n' by {}
    lemma_final_setting_line(c1, key, s);
    lemma_words_trim(s);
    assert(key != "width"@ && key != "height"@ && key != "position"@ && key != "margin_left"@);
    assert(key != "margin_top"@ && key != "margin_bottom"@ && key != "font_size"@);
    assert(key != "opacity"@ && key != "max_lines"@);
}


/// The ten keys are different texts.
proof fn lemma_keys_distinct()
    ensures
        "width"@ != "height"@,
        "width"@ != "position"@,
        "width"@ != "margin_left"@,
        "width"@ != "margin_top"@,
        "width"@ != "margin_bottom"@,
        "width"@ != "font_size"@,
        "width"@ != "opacity"@,
        "width"@ != "max_lines"@,
        "width"@ != "journal_args"@,
        "height"@ != "position"@,
        "height"@ != "margin_left"@,
        "height"@ != "margin_top"@,
        "height"@ != "margin_bottom"@,
        "height"@ != "font_size"@,
        "height"@ != "opacity"@,
        "height"@ != "max_lines"@,
        "height"@ != "journal_args"@,
        "position"@ != "margin_left"@,
        "position"@ != "margin_top"@,
        "position"@ != "margin_bottom"@,
        "position"@ != "font_size"@,
        "position"@ != "opacity"@,
        "position"@ != "max_lines"@,
        "position"@ != "journal_args"@,
        "margin_left"@ != "margin_top"@,
        "margin_left"@ != "margin_bottom"@,
        "margin_left"@ != "font_size"@,
        "margin_left"@ != "opacity"@,
        "margin_left"@ != "max_lines"@,
        "margin_left"@ != "journal_args"@,
        "margin_top"@ != "margin_bottom"@,
        "margin_top"@ != "font_size"@,
        "margin_top"@ != "opacity"@,
        "margin_top"@ != "max_lines"@,
        "margin_top"@ != "journal_args"@,
        "margin_bottom"@ != "font_size"@,
        "margin_bottom"@ != "opacity"@,
        "margin_bottom"@ != "max_lines"@,
        "margin_bottom"@ != "journal_args"@,
        "font_size"@ != "opacity"@,
        "font_size"@ != "max_lines"@,
        "font_size"@ != "journal_args"@,
        "opacity"@ != "max_lines"@,
        "opacity"@ != "journal_args"@,
        "max_lines"@ != "journal_args"@,
{
    reveal_strlit("width");
    reveal_strlit("height");
    reveal_strlit("position");
    reveal_strlit("margin_left");
    reveal_strlit("margin_top");
    reveal_strlit("margin_bottom");
    reveal_strlit("font_size");
    reveal_strlit("opacity");
    reveal_strlit("max_lines");
    reveal_strlit("journal_args");
    assert("font_size"@[0] != "max_lines"@[0]);
    assert("width"@.len() == 5);
    assert("height"@.len() == 6);
    assert("position"@.len() == 8);
    assert("margin_left"@.len() == 11);
    assert("margin_top"@.len() == 10);
    assert("margin_bottom"@.len() == 13);
    assert("font_size"@.len() == 9);
    assert("opacity"@.len() == 7);
    assert("max_lines"@.len() == 9);
    assert("journal_args"@.len() == 12);
}

/// A setting changes only the field its key names; every other setting is
/// kept as it was. The two floating-point keys add their value to their own
/// list of texts.
pub proof fn lemma_setting_changes_only_its_field(c: ConfigView, v: Seq<char>)
    ensures
        apply_setting(c, "width"@, v) == (ConfigView { width: apply_setting(c, "width"@, v).width, ..c }),
        apply_setting(c, "height"@, v) == (ConfigView { height: apply_setting(c, "height"@, v).height, ..c }),
        apply_setting(c, "position"@, v) == (ConfigView {
            position: apply_setting(c, "position"@, v).position,
            ..c
        }),
        apply_setting(c, "margin_left"@, v) == (ConfigView {
            margin_left: apply_setting(c, "margin_left"@, v).margin_left,
            ..c
        }),
        apply_setting(c, "margin_top"@, v) == (ConfigView {
            margin_top: apply_setting(c, "margin_top"@, v).margin_top,
            ..c
        }),
        apply_setting(c, "margin_bottom"@, v) == (ConfigView {
            margin_bottom: apply_setting(c, "margin_bottom"@, v).margin_bottom,
            ..c
        }),
        apply_setting(c, "max_lines"@, v) == (ConfigView {
            max_lines: apply_setting(c, "max_lines"@, v).max_lines,
            ..c
        }),
        apply_setting(c, "journal_args"@, v) == (ConfigView { journal_args: words(v), ..c }),
        apply_setting(c, "font_size"@, v) == (ConfigView {
            font_size_values: c.font_size_values.push(v),
            ..c
        }),
        apply_setting(c, "opacity"@, v) == (ConfigView { opacity_values: c.opacity_values.push(v), ..c }),
{
    lemma_keys_distinct();
}

/// A number written in decimal sets the setting its key names: the height
/// and the line count limited to their ranges, a margin as it is.
pub proof fn lemma_setting_reads_number(c: ConfigView, n: nat)
    ensures
        n <= i32::MAX ==> apply_setting(c, "margin_left"@, decimal(n)).margin_left == n,
        n <= i32::MAX ==> apply_setting(c, "margin_top"@, decimal(n)).margin_top == n,
        n <= i32::MAX ==> apply_setting(c, "margin_bottom"@, decimal(n)).margin_bottom == n,
        n <= u32::MAX ==> apply_setting(c, "height"@, decimal(n)).height == clamp(n as int, 80, 4096),
        n <= usize::MAX ==> apply_setting(c, "max_lines"@, decimal(n)).max_lines == clamp(
            n as int,
            20,
            5000,
        ),
{
    lemma_keys_distinct();
    lemma_decimal_digits(n);
    if n <= i32::MAX {
        lemma_parse_decimal(n, i32::MAX as nat);
    }
    if n <= u32::MAX {
        lemma_parse_decimal(n, u32::MAX as nat);
    }
    if n <= usize::MAX {
        lemma_parse_decimal(n, usize::MAX as nat);
    }
    assert(decimal(n)[0] != '-');
}


/// `top` and `bottom`, in any ASCII case, name the two edges, and nothing
/// else names one.
pub proof fn lemma_position_names(v: Seq<char>)
    ensures
        position_from(v) == Some(Position::Top) <==> lower_all(v) == "top"@,
        position_from(v) == Some(Position::Bottom) <==> lower_all(v) == "bottom"@,
        position_from(v) is None <==> lower_all(v) != "top"@ && lower_all(v) != "bottom"@,
{
    reveal_strlit("top");
    reveal_strlit("bottom");
    assert("top"@.len() != "bottom"@.len());
}

/// A positive number is a width in pixels, limited to `120..=8192`; white
/// space around it does not matter.
pub proof fn lemma_width_reads_pixels(n: nat)
    requires
        1 <= n <= u32::MAX,
    ensures
        width_spec_from(decimal(n)) == Some(WidthSpec::Pixels(clamp(n as int, 120, 8192) as u32)),
{
    let d = decimal(n);
    lemma_decimal_digits(n);
    lemma_parse_decimal(n, u32::MAX as nat);
    lemma_trim_plain(d);
    let l = lower_all(d);
    reveal_strlit("full");
    reveal_strlit("screen");
    reveal_strlit("half");
    reveal_strlit("0");
    assert(is_digit(d[0]));
    assert(l[0] == d[0]);
    assert(l != "full"@) by {
        assert("full"@[0] == 'f');
    }
    assert(l != "screen"@) by {
        assert("screen"@[0] == 's');
    }
    assert(l != "half"@) by {
        assert("half"@[0] == 'h');
    }
    assert(d != "0"@) by {
        if d == "0"@ {
            assert(d.len() == 1);
            assert(d.drop_last() =~= Seq::<char>::empty());
            assert(d.last() == '0');
            assert(digits_value(Seq::<char>::empty()) == 0);
            assert(digits_value(d) == digits_value(d.drop_last()) * 10 + digit_value(d.last()));
        }
    }
}

} // verus!
