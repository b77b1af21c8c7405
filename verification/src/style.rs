//! Colors and styled text.
use vstd::prelude::*;

use crate::seqs::{group_views, views};

verus! {

/// A color: one of the terminal's, one of this program's own, or one given by its
/// components or its number.
#[derive(Clone, Copy, Debug, PartialEq, Eq, Structural)]
pub enum Color {
    Reset,
    White,
    Cyan,
    DarkGray,
    Green,
    Magenta,
    Red,
    Yellow,
    PanelSelection,
    AdditionBackground,
    DeletionBackground,
    DiffText,
    LineNumber,
    Addition,
    Deletion,
    Hunk,
    Rgb(u8, u8, u8),
    Indexed(u8),
}

pub const PANEL_BACKGROUND: Color = Color::Reset;

pub const PANEL_FOREGROUND: Color = Color::White;

pub const PANEL_SELECTION: Color = Color::PanelSelection;

pub const DIFF_BACKGROUND: Color = Color::Reset;

pub const DIFF_GUTTER_BACKGROUND: Color = Color::Reset;

pub const DIFF_HEADER_BACKGROUND: Color = Color::Reset;

pub const DIFF_ADDITION_BACKGROUND: Color = Color::AdditionBackground;

pub const DIFF_DELETION_BACKGROUND: Color = Color::DeletionBackground;

pub const DIFF_TEXT: Color = Color::DiffText;

pub const DIFF_LINE_NUMBER: Color = Color::LineNumber;

pub const DIFF_ADDITION: Color = Color::Addition;

pub const DIFF_DELETION: Color = Color::Deletion;

pub const DIFF_HUNK: Color = Color::Hunk;

/// The red, green and blue of a color that is given by them.
pub open spec fn rgb_of(color: Color) -> Option<(u8, u8, u8)> {
    match color {
        Color::PanelSelection => Some((56u8, 64u8, 78u8)),
        Color::AdditionBackground => Some((12u8, 67u8, 48u8)),
        Color::DeletionBackground => Some((76u8, 31u8, 43u8)),
        Color::DiffText => Some((208u8, 220u8, 238u8)),
        Color::LineNumber => Some((105u8, 137u8, 177u8)),
        Color::Addition => Some((105u8, 224u8, 150u8)),
        Color::Deletion => Some((246u8, 120u8, 134u8)),
        Color::Hunk => Some((149u8, 180u8, 224u8)),
        Color::Rgb(red, green, blue) => Some((red, green, blue)),
        _ => None,
    }
}

impl Color {
    /// The red, green and blue of a color that is given by them.
    pub fn rgb(self) -> (components: Option<(u8, u8, u8)>)
        ensures
            components == rgb_of(self),
    {
        match self {
            Color::PanelSelection => Some((56, 64, 78)),
            Color::AdditionBackground => Some((12, 67, 48)),
            Color::DeletionBackground => Some((76, 31, 43)),
            Color::DiffText => Some((208, 220, 238)),
            Color::LineNumber => Some((105, 137, 177)),
            Color::Addition => Some((105, 224, 150)),
            Color::Deletion => Some((246, 120, 134)),
            Color::Hunk => Some((149, 180, 224)),
            Color::Rgb(red, green, blue) => Some((red, green, blue)),
            _ => None,
        }
    }
}

/// How text is shown; what is not set is left as it was.
#[derive(Clone, Copy, Debug, PartialEq, Eq, Structural)]
pub struct TextStyle {
    pub foreground: Option<Color>,
    pub background: Option<Color>,
    pub bold: bool,
}

/// Nothing set.
pub open spec fn spec_plain() -> TextStyle {
    TextStyle { foreground: None, background: None, bold: false }
}

/// Nothing set.
#[verifier::when_used_as_spec(spec_plain)]
pub fn plain() -> (style: TextStyle)
    ensures
        style == spec_plain(),
{
    TextStyle { foreground: None, background: None, bold: false }
}

impl TextStyle {
    /// The style with another text color.
    pub open spec fn with_fg(self, color: Color) -> TextStyle {
        TextStyle { foreground: Some(color), ..self }
    }

    /// The style with another background.
    pub open spec fn with_bg(self, color: Color) -> TextStyle {
        TextStyle { background: Some(color), ..self }
    }

    /// The style in bold.
    pub open spec fn in_bold(self) -> TextStyle {
        TextStyle { bold: true, ..self }
    }

    pub fn fg(self, color: Color) -> (style: TextStyle)
        ensures
            style == self.with_fg(color),
    {
        TextStyle { foreground: Some(color), background: self.background, bold: self.bold }
    }

    pub fn bg(self, color: Color) -> (style: TextStyle)
        ensures
            style == self.with_bg(color),
    {
        TextStyle { foreground: self.foreground, background: Some(color), bold: self.bold }
    }

    pub fn bold(self) -> (style: TextStyle)
        ensures
            style == self.in_bold(),
    {
        TextStyle { foreground: self.foreground, background: self.background, bold: true }
    }
}

/// A style with a text color and a background.
pub open spec fn colored(foreground: Color, background: Color) -> TextStyle {
    plain().with_fg(foreground).with_bg(background)
}

pub open spec fn panel() -> TextStyle {
    colored(PANEL_FOREGROUND, PANEL_BACKGROUND)
}

pub fn panel_style() -> (style: TextStyle)
    ensures
        style == panel(),
{
    plain().fg(PANEL_FOREGROUND).bg(PANEL_BACKGROUND)
}

/// Text in one style.
#[derive(Debug, PartialEq, Eq)]
pub struct Span {
    pub text: String,
    pub style: TextStyle,
}

pub ghost struct SpanView {
    pub text: Seq<char>,
    pub style: TextStyle,
}

impl View for Span {
    type V = SpanView;

    open spec fn view(&self) -> SpanView {
        SpanView { text: self.text@, style: self.style }
    }
}

impl Span {
    pub fn new(text: String, style: TextStyle) -> (span: Span)
        ensures
            span@ == (SpanView { text: text@, style }),
    {
        Span { text, style }
    }

    pub fn of(text: &str, style: TextStyle) -> (span: Span)
        ensures
            span@ == (SpanView { text: text@, style }),
    {
        Span { text: text.to_owned(), style }
    }
}

pub open spec fn styled(text: Seq<char>, style: TextStyle) -> SpanView {
    SpanView { text, style }
}

/// A line of styled text, with a style for the whole of it.
#[derive(Debug, PartialEq, Eq)]
pub struct TextLine {
    pub spans: Vec<Span>,
    pub style: TextStyle,
}

pub ghost struct TextLineView {
    pub spans: Seq<SpanView>,
    pub style: TextStyle,
}

impl View for TextLine {
    type V = TextLineView;

    open spec fn view(&self) -> TextLineView {
        TextLineView { spans: views(self.spans@), style: self.style }
    }
}

pub open spec fn line_of(spans: Seq<SpanView>) -> TextLineView {
    TextLineView { spans, style: plain() }
}

impl TextLine {
    pub fn of(spans: Vec<Span>) -> (line: TextLine)
        ensures
            line@ == line_of(views(spans@)),
    {
        TextLine { spans, style: plain() }
    }

    /// A line of one span that is styled as a whole.
    pub fn styled(text: &str, style: TextStyle) -> (line: TextLine)
        ensures
            line@ == (TextLineView { spans: seq![crate::style::styled(text@, plain())], style }),
    {
        broadcast use group_views;

        let mut spans: Vec<Span> = Vec::new();
        spans.push(Span::of(text, plain()));
        TextLine { spans, style }
    }
}

/// A color component made brighter by a quarter.
pub open spec fn brightened(value: int) -> int {
    if value * 125 / 100 > 255 {
        255
    } else {
        value * 125 / 100
    }
}

/// A color component made brighter by a quarter.
pub fn brighten_code_component(value: u8) -> (result: u8)
    ensures
        result == brightened(value as int),
{
    let raised = value as u16 * 125 / 100;
    if raised > 255 {
        255
    } else {
        raised as u8
    }
}

/// A color component as one of the six steps of the terminal's color cube.
pub open spec fn cube_step(value: int) -> int {
    (value * 5 + 127) / 255
}

/// The color in which code is shown: brightened, and taken from the color cube
/// where the terminal does not show all colors.
pub open spec fn code_color(red: u8, green: u8, blue: u8, true_color: bool) -> Color {
    let (r, g, b) = (
        brightened(red as int),
        brightened(green as int),
        brightened(blue as int),
    );
    if true_color {
        Color::Rgb(r as u8, g as u8, b as u8)
    } else {
        Color::Indexed((16 + 36 * cube_step(r) + 6 * cube_step(g) + cube_step(b)) as u8)
    }
}

fn cube_component(value: u8) -> (step: u8)
    ensures
        step == cube_step(value as int),
        step <= 5,
{
    ((value as u16 * 5 + 127) / 255) as u8
}

/// The color in which code is shown, given whether the terminal shows all colors.
pub fn terminal_color(red: u8, green: u8, blue: u8, true_color: bool) -> (color: Color)
    ensures
        color == code_color(red, green, blue, true_color),
{
    let r = brighten_code_component(red);
    let g = brighten_code_component(green);
    let b = brighten_code_component(blue);
    if true_color {
        Color::Rgb(r, g, b)
    } else {
        Color::Indexed(16 + 36 * cube_component(r) + 6 * cube_component(g) + cube_component(b))
    }
}

/// Whether the terminal shows all colors, from the value of `COLORTERM`.
pub fn shows_true_color(value: Option<&str>) -> (shows: bool)
    ensures
        shows == (value matches Some(text) && (text@ == "truecolor"@ || text@ == "24bit"@)),
{
    match value {
        Some(text) => crate::text::same_text(text, "truecolor") || crate::text::same_text(
            text,
            "24bit",
        ),
        None => false,
    }
}

/// A component of a color in which code is shown is brighter by a quarter, as long as it
/// can be, and never darker.
pub proof fn law_code_is_brightened_by_a_quarter(value: u8)
    ensures
        value <= brightened(value as int) <= 255,
        value <= 204 ==> 4 * brightened(value as int) <= 5 * value < 4 * brightened(value as int)
            + 4,
        value > 204 ==> brightened(value as int) == 255,
{
}

/// On a terminal that does not show all colors, each component is the nearest of the six
/// steps of the color cube, and the three are told apart in the number of the color.
pub proof fn law_colors_are_the_nearest_of_the_cube(red: u8, green: u8, blue: u8) -> (steps: (
    int,
    int,
    int,
))
    ensures
        is_nearest_step(steps.0, brightened(red as int)),
        is_nearest_step(steps.1, brightened(green as int)),
        is_nearest_step(steps.2, brightened(blue as int)),
        code_color(red, green, blue, false) == Color::Indexed(
            (16 + 36 * steps.0 + 6 * steps.1 + steps.2) as u8,
        ),
        code_color(red, green, blue, true) == Color::Rgb(
            brightened(red as int) as u8,
            brightened(green as int) as u8,
            brightened(blue as int) as u8,
        ),
{
    let r = brightened(red as int);
    let g = brightened(green as int);
    let b = brightened(blue as int);
    lemma_cube_step(r);
    lemma_cube_step(g);
    lemma_cube_step(b);
    (cube_step(r), cube_step(g), cube_step(b))
}

/// Whether a step of the color cube is the one nearest to a component: the steps are
/// fifty-one apart.
pub open spec fn is_nearest_step(step: int, value: int) -> bool {
    0 <= step <= 5 && -51 <= 2 * (51 * step - value) <= 51
}

proof fn lemma_cube_step(value: int)
    requires
        0 <= value <= 255,
    ensures
        is_nearest_step(cube_step(value), value),
{
}

} // verus!
