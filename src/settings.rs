use vstd::prelude::*;
use crate::color::{Color, ParseColorError, hex_body, hex_ok, hex_result, color_of_hex};

verus! {

/// Font descriptions and pixel sizes.
#[derive(Clone, Debug)]
pub struct Fonts {
    /// Font description for the session, username and password rows.
    pub main: String,
    /// Font description for the heading.
    pub heading: String,
    pub main_size_px: u32,
    pub heading_size_px: u32,
}

/// The colours of the five roles, each as hex text.
#[derive(Clone, Debug)]
pub struct Colors {
    pub foreground: String,
    pub background: String,
    /// The default box and other neutral parts.
    pub neutral: String,
    /// Selections, active rows, actions in progress.
    pub selected: String,
    /// Failures, such as a refused login.
    pub error: String,
}

/// The colours of the five roles.
#[derive(Clone, Copy, Debug, PartialEq, Eq, Structural)]
pub struct ResolvedColors {
    pub foreground: Color,
    pub background: Color,
    pub neutral: Color,
    pub selected: Color,
    pub error: Color,
}

/// What configuration fixes of the login.
#[derive(Clone, Debug)]
pub struct Login {
    /// Name of the session target to force.
    pub target: Option<String>,
    /// Username to force.
    pub username: Option<String>,
}

#[derive(Clone, Copy, Debug, PartialEq, Eq, Structural)]
pub enum TextAlign {
    Left,
    Center,
    Right,
}

/// Geometry and glyphs of the form.
#[derive(Clone, Debug)]
pub struct Ui {
    pub gap_below_session_px: u32,
    pub gap_below_username_px: u32,
    pub row_h: u32,
    pub password_char: String,
    pub text_align: TextAlign,
    pub form_width: u32,
    pub form_height: u32,
    pub session_left_arrow: String,
    pub session_right_arrow: String,
}

/// The whole configuration.
#[derive(Clone, Debug)]
pub struct Settings {
    pub fonts: Fonts,
    pub colors: Colors,
    pub login: Login,
    pub ui: Ui,
}

pub fn default_main_font_size_px() -> (r: u32)
    ensures
        r == 42,
{
    42
}

pub fn default_heading_font_size_px() -> (r: u32)
    ensures
        r == 72,
{
    72
}

pub fn default_gap_below_session_px() -> (r: u32)
    ensures
        r == 64,
{
    64
}

pub fn default_gap_below_username_px() -> (r: u32)
    ensures
        r == 32,
{
    32
}

pub fn default_row_h() -> (r: u32)
    ensures
        r == 72,
{
    72
}

pub fn default_password_char() -> (r: String)
    ensures
        r@ == "*"@,
{
    String::from_str("*")
}

pub fn default_text_align() -> (r: TextAlign)
    ensures
        r == TextAlign::Center,
{
    TextAlign::Center
}

pub fn default_form_width() -> (r: u32)
    ensures
        r == 512,
{
    512
}

pub fn default_form_height() -> (r: u32)
    ensures
        r == 168,
{
    168
}

pub fn default_session_left_arrow() -> (r: String)
    ensures
        r@ == "\u{276e}"@,
{
    String::from_str("\u{276e}")
}

pub fn default_session_right_arrow() -> (r: String)
    ensures
        r@ == "\u{276f}"@,
{
    String::from_str("\u{276f}")
}

impl Default for Colors {
    fn default() -> (r: Colors)
        ensures
            r.foreground@ == "#FFFFFF"@,
            r.background@ == "#000000"@,
            r.neutral@ == "#BFBFBF"@,
            r.selected@ == "#BFBF3F"@,
            r.error@ == "#BF3F3F"@,
    {
        Colors {
            foreground: String::from_str("#FFFFFF"),
            background: String::from_str("#000000"),
            neutral: String::from_str("#BFBFBF"),
            selected: String::from_str("#BFBF3F"),
            error: String::from_str("#BF3F3F"),
        }
    }
}

impl Default for Fonts {
    fn default() -> (r: Fonts)
        ensures
            r.main@ == "Monospace"@,
            r.heading@ == "Sans"@,
            r.main_size_px == 42,
            r.heading_size_px == 72,
    {
        Fonts {
            main: String::from_str("Monospace"),
            heading: String::from_str("Sans"),
            main_size_px: default_main_font_size_px(),
            heading_size_px: default_heading_font_size_px(),
        }
    }
}

impl Default for Login {
    fn default() -> (r: Login)
        ensures
            r.target is None,
            r.username is None,
    {
        Login { target: None, username: None }
    }
}

impl Default for Ui {
    fn default() -> (r: Ui)
        ensures
            r.gap_below_session_px == 64,
            r.gap_below_username_px == 32,
            r.row_h == 72,
            r.password_char@ == "*"@,
            r.text_align == TextAlign::Center,
            r.form_width == 512,
            r.form_height == 168,
            r.session_left_arrow@ == "\u{276e}"@,
            r.session_right_arrow@ == "\u{276f}"@,
    {
        Ui {
            gap_below_session_px: default_gap_below_session_px(),
            gap_below_username_px: default_gap_below_username_px(),
            row_h: default_row_h(),
            password_char: default_password_char(),
            text_align: default_text_align(),
            form_width: default_form_width(),
            form_height: default_form_height(),
            session_left_arrow: default_session_left_arrow(),
            session_right_arrow: default_session_right_arrow(),
        }
    }
}

impl Default for Settings {
    fn default() -> (r: Settings)
        ensures
            r.colors.foreground@ == "#FFFFFF"@,
            r.colors.background@ == "#000000"@,
            r.colors.neutral@ == "#BFBFBF"@,
            r.colors.selected@ == "#BFBF3F"@,
            r.colors.error@ == "#BF3F3F"@,
            r.login.target is None,
            r.login.username is None,
            r.ui.row_h == 72,
            r.ui.form_width == 512,
            r.fonts.main_size_px == 42,
    {
        Settings {
            fonts: Fonts::default(),
            colors: Colors::default(),
            login: Login::default(),
            ui: Ui::default(),
        }
    }
}

impl Settings {
    /// Parses the five colours; the first that does not parse, in the order
    /// foreground, background, neutral, selected, error, gives the error.
    pub fn resolve_colors(&self) -> (res: Result<ResolvedColors, ParseColorError>)
        ensures
            ({
                let c = &self.colors;
                match res {
                    Ok(r) => hex_ok(c.foreground@) && hex_ok(c.background@) && hex_ok(c.neutral@) && hex_ok(
                        c.selected@,
                    ) && hex_ok(c.error@) && r.foreground == color_of_hex(hex_body(c.foreground@))
                        && r.background == color_of_hex(hex_body(c.background@)) && r.neutral
                        == color_of_hex(hex_body(c.neutral@)) && r.selected == color_of_hex(
                        hex_body(c.selected@),
                    ) && r.error == color_of_hex(hex_body(c.error@)),
                    Err(e) => if !hex_ok(c.foreground@) {
                        hex_result(c.foreground@, Err(e))
                    } else if !hex_ok(c.background@) {
                        hex_result(c.background@, Err(e))
                    } else if !hex_ok(c.neutral@) {
                        hex_result(c.neutral@, Err(e))
                    } else if !hex_ok(c.selected@) {
                        hex_result(c.selected@, Err(e))
                    } else {
                        !hex_ok(c.error@) && hex_result(c.error@, Err(e))
                    },
                }
            }),
    {
        let foreground = match Color::from_hex(self.colors.foreground.as_str()) {
            Ok(c) => c,
            Err(e) => return Err(e),
        };
        let background = match Color::from_hex(self.colors.background.as_str()) {
            Ok(c) => c,
            Err(e) => return Err(e),
        };
        let neutral = match Color::from_hex(self.colors.neutral.as_str()) {
            Ok(c) => c,
            Err(e) => return Err(e),
        };
        let selected = match Color::from_hex(self.colors.selected.as_str()) {
            Ok(c) => c,
            Err(e) => return Err(e),
        };
        let error = match Color::from_hex(self.colors.error.as_str()) {
            Ok(c) => c,
            Err(e) => return Err(e),
        };
        Ok(ResolvedColors { foreground, background, neutral, selected, error })
    }
}

} // verus!
