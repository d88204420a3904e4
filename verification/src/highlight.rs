//! Syntax highlighting of code blocks with `syntect`'s bundled syntaxes and
//! themes.
use vstd::prelude::*;

use crate::style::Color;
use crate::util::{chars_of, string_of};

verus! {

// ---------------------------------------------------------------------------
// Syntax highlighting
// ---------------------------------------------------------------------------

#[verifier::external_type_specification]
#[verifier::external_body]
pub struct ExSyntaxSet(syntect::parsing::SyntaxSet);

#[verifier::external_type_specification]
#[verifier::external_body]
pub struct ExThemeSet(syntect::highlighting::ThemeSet);

/// The bundled syntaxes and colour theme of the code highlighter.
pub struct Highlighter {
    set: syntect::parsing::SyntaxSet,
    themes: syntect::highlighting::ThemeSet,
    /// The name of the theme in use, one of `themes`.
    theme: String,
}

/// A highlighted piece of a code line.
#[derive(Debug)]
pub struct HlRange {
    pub text: String,
    pub color: Color,
    pub bold: bool,
    pub italic: bool,
}

/// A highlighted piece: text, colour, bold, italic.
pub type HlPiece = (Seq<char>, Color, bool, bool);

/// The view of a highlighted piece.
pub open spec fn piece_view(r: HlRange) -> HlPiece {
    (r.text@, r.color, r.bold, r.italic)
}

/// The view of the pieces of one line (`None`: the line could not be highlighted).
pub open spec fn hl_line_view(o: Option<Vec<HlRange>>) -> Option<Seq<HlPiece>> {
    match o {
        Some(v) => Some(v@.map_values(|r: HlRange| piece_view(r))),
        None => None,
    }
}

/// The view of a highlighting result.
pub open spec fn hl_view(r: Option<Vec<Option<Vec<HlRange>>>>) -> Option<Seq<Option<Seq<HlPiece>>>> {
    match r {
        Some(v) => Some(v@.map_values(|o: Option<Vec<HlRange>>| hl_line_view(o))),
        None => None,
    }
}

/// The texts of strings.
pub open spec fn strings_view(v: Seq<String>) -> Seq<Seq<char>> {
    v.map_values(|s: String| s@)
}

/// What the highlighter of `Highlighter::new` gives for the lines of a code
/// block in the syntax of the language token `token`: `None` when no bundled
/// syntax answers to the token, else one entry per line, `None` for a line
/// the parser failed on.
pub uninterp spec fn syntax_highlight(token: Seq<char>, lines: Seq<Seq<char>>) -> Option<
    Seq<Option<Seq<HlPiece>>>,
>;

/// `syntect::parsing::SyntaxSet::load_defaults_newlines`: the bundled syntaxes.
#[verifier::external_body]
fn default_syntaxes() -> syntect::parsing::SyntaxSet {
    syntect::parsing::SyntaxSet::load_defaults_newlines()
}

/// The names of the themes of a theme set (the keys of its map).
pub uninterp spec fn theme_names(themes: syntect::highlighting::ThemeSet) -> Set<Seq<char>>;

/// `syntect::highlighting::ThemeSet::load_defaults`: the bundled themes,
/// which syntect documents to include `base16-ocean.dark`.
#[verifier::external_body]
fn default_themes() -> (r: syntect::highlighting::ThemeSet)
    ensures
        theme_names(r).contains("base16-ocean.dark"@),
{
    syntect::highlighting::ThemeSet::load_defaults()
}

/// Whether the theme set holds a theme named `name` (`BTreeMap::contains_key`).
#[verifier::external_body]
fn has_theme(themes: &syntect::highlighting::ThemeSet, name: &str) -> (r: bool)
    ensures
        r == theme_names(*themes).contains(name@),
{
    themes.themes.contains_key(name)
}

/// The first name of the theme set, in the order of the names
/// (`BTreeMap::keys`); `None` when the set is empty.
#[verifier::external_body]
fn first_theme_name(themes: &syntect::highlighting::ThemeSet) -> (r: Option<String>)
    ensures
        r matches Some(n) ==> theme_names(*themes).contains(n@),
        r is None ==> theme_names(*themes) == Set::<Seq<char>>::empty(),
{
    themes.themes.keys().next().cloned()
}

/// A highlighted piece of `text` in the colour `(r, g, b)`.
pub fn hl_piece(text: &str, r: u8, g: u8, b: u8, bold: bool, italic: bool) -> (p: HlRange)
    ensures
        piece_view(p) == (text@, Color::Rgb(r, g, b), bold, italic),
{
    HlRange { text: string_of(chars_of(text).as_slice()), color: Color::Rgb(r, g, b), bold, italic }
}

impl Highlighter {
    /// The name of the theme in use.
    pub closed spec fn theme_name(&self) -> Seq<char> {
        self.theme@
    }

    /// The bundled syntaxes with the bundled `base16-ocean.dark` theme (the
    /// first bundled theme when that one is missing; `None` when no theme is
    /// bundled). As syntect bundles that theme, a highlighter always comes.
    pub fn new() -> (r: Option<Highlighter>)
        ensures
            r matches Some(h) && h.theme_name() == "base16-ocean.dark"@,
    {
        let set = default_syntaxes();
        let themes = default_themes();
        let name = if has_theme(&themes, "base16-ocean.dark") {
            Some(string_of(chars_of("base16-ocean.dark").as_slice()))
        } else {
            first_theme_name(&themes)
        };
        match name {
            Some(theme) => Some(Highlighter { set, themes, theme }),
            None => None,
        }
    }

    /// `syntect::parsing::SyntaxSet::find_syntax_by_token` for `token`, then
    /// `syntect::easy::HighlightLines::highlight_line` on each line in turn,
    /// in the theme in use: the highlighted pieces of every line, `None`
    /// when no syntax answers to the token. The result depends on the token
    /// and the lines alone (the syntaxes and theme are always the bundled
    /// ones), and has one entry per line.
    #[verifier::external_body]
    pub(crate) fn highlight(&self, token: &str, lines: &Vec<String>) -> (r: Option<Vec<Option<Vec<HlRange>>>>)
        ensures
            hl_view(r) == syntax_highlight(token@, strings_view(lines@)),
            r matches Some(v) ==> v@.len() == lines@.len(),
    {
        let syntax = self.set.find_syntax_by_token(token)?;
        let mut h = syntect::easy::HighlightLines::new(syntax, self.themes.themes.get(&self.theme)?);
        Some(lines.iter().map(|l| h.highlight_line(l, &self.set).ok().map(|v| v.into_iter().map(|(s, t)| {
            let (c, f) = (s.foreground, s.font_style);
            hl_piece(t, c.r, c.g, c.b, f.contains(syntect::highlighting::FontStyle::BOLD), f.contains(syntect::highlighting::FontStyle::ITALIC))
        }).collect())).collect())
    }
}


} // verus!
