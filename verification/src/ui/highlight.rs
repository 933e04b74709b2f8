//! Per-line syntax highlighting via syntect.
//!
//! Highlighting is line-isolated: each diff line is highlighted on its own, with no state
//! carried across lines, which keeps it cheap and trivially cacheable.
use crate::paths;
use crate::strs;
use crate::ui::style::Color;
use crate::ui::theme;
use crate::ui::theme::{adapt_color, Rgb, Rgba, SyntaxColors};
use syntect::easy::HighlightLines;
use syntect::highlighting::Theme as SyntaxTheme;
use syntect::parsing::{Scope, SyntaxSet};
use two_face::theme::EmbeddedThemeName;
use vstd::prelude::*;

verus! {

/// syntect's set of syntax definitions.
#[verifier::external_type_specification]
#[verifier::external_body]
pub struct ExSyntaxSet(SyntaxSet);

/// syntect's color theme.
#[verifier::external_type_specification]
#[verifier::external_body]
pub struct ExSyntaxTheme(SyntaxTheme);

/// A piece of a line in one color.
#[derive(Debug)]
pub struct Run {
    pub color: Color,
    pub text: String,
}

/// What a [`Run`] says.
#[verifier::ext_equal]
pub struct RunV {
    pub color: Color,
    pub text: Seq<char>,
}

impl View for Run {
    type V = RunV;

    open spec fn view(&self) -> RunV {
        RunV { color: self.color, text: self.text@ }
    }
}

impl Clone for Run {
    fn clone(&self) -> (r: Run)
        ensures
            r@ == self@,
    {
        Run { color: self.color, text: self.text.clone() }
    }
}

/// A highlighted token: its foreground and its text.
#[derive(Debug)]
pub struct Token {
    pub r: u8,
    pub g: u8,
    pub b: u8,
    pub text: String,
}

impl View for Token {
    type V = ((u8, u8, u8), Seq<char>);

    open spec fn view(&self) -> ((u8, u8, u8), Seq<char>) {
        ((self.r, self.g, self.b), self.text@)
    }
}

/// A syntax, by what it was found under.
#[derive(Debug, Clone, PartialEq, Eq)]
pub enum Syntax {
    /// The syntax of a file extension.
    Extension(String),
    /// The syntax of a file name, or of that name itself.
    Token(String),
    /// Plain text.
    Plain,
}

/// What a [`Syntax`] is.
#[verifier::ext_equal]
pub enum SyntaxV {
    Extension(Seq<char>),
    Token(Seq<char>),
    Plain,
}

impl View for Syntax {
    type V = SyntaxV;

    open spec fn view(&self) -> SyntaxV {
        match *self {
            Syntax::Extension(e) => SyntaxV::Extension(e@),
            Syntax::Token(t) => SyntaxV::Token(t@),
            Syntax::Plain => SyntaxV::Plain,
        }
    }
}

/// Whether `SyntaxSet::find_syntax_by_extension` finds a syntax for a file extension.
pub uninterp spec fn has_extension(ext: Seq<char>) -> bool;

/// Whether `SyntaxSet::find_syntax_by_token` finds a syntax for a token.
pub uninterp spec fn has_token(token: Seq<char>) -> bool;

/// The tokens that `HighlightLines::highlight_line` makes of a line as the first one of a
/// file in a syntax; `None` for an error.
pub uninterp spec fn tokens_of(syntax: SyntaxV, line: Seq<char>) -> Option<
    Seq<((u8, u8, u8), Seq<char>)>,
>;

/// A color setting of a syntax theme.
#[derive(Debug, Clone, Copy, PartialEq, Eq, Structural)]
pub enum Setting {
    Background,
    Foreground,
    Accent,
    LineHighlight,
    Selection,
}

/// What the `settings` of the default theme hold.
pub uninterp spec fn theme_setting(which: Setting) -> Option<Rgba>;

/// The foreground that `Highlighter::style_for_stack` gives to a scope alone in the default
/// theme.
pub uninterp spec fn scope_foreground(name: Seq<char>) -> Rgb;

/// The color of a setting without its opacity.
pub open spec fn opaque_setting(which: Setting) -> Option<Rgb> {
    match theme_setting(which) {
        Some(c) => Some(c.rgb),
        None => None,
    }
}

/// `c` is the color of the scope `name`, where the scope has one.
pub open spec fn of_scope(c: Option<Rgb>, name: Seq<char>) -> bool {
    c matches Some(x) ==> x == scope_foreground(name)
}

/// The texts of tokens.
pub open spec fn token_texts(tokens: Seq<((u8, u8, u8), Seq<char>)>) -> Seq<Seq<char>> {
    Seq::new(tokens.len(), |i: int| tokens[i].1)
}

/// The texts of runs.
pub open spec fn run_texts(runs: Seq<RunV>) -> Seq<Seq<char>> {
    Seq::new(runs.len(), |i: int| runs[i].text)
}

/// The syntax of a file, by its extension or else by its name; without either, plain text.
pub open spec fn syntax_of(path: Seq<char>) -> SyntaxV {
    let ext = match paths::extension(path) {
        Some(e) => e,
        None => Seq::empty(),
    };
    let name = match paths::file_name(path) {
        Some(n) => n,
        None => Seq::empty(),
    };
    if has_extension(ext) {
        SyntaxV::Extension(ext)
    } else if has_token(name) {
        SyntaxV::Token(name)
    } else {
        SyntaxV::Plain
    }
}

/// A token as a run, in a color that the terminal can show.
pub open spec fn token_run(t: ((u8, u8, u8), Seq<char>), truecolor: bool) -> RunV {
    RunV {
        color: theme::adapted(Color::Rgb(t.0.0, t.0.1, t.0.2), truecolor),
        text: t.1,
    }
}

/// The runs of a line in a syntax.
pub open spec fn runs_in(syntax: SyntaxV, line: Seq<char>, truecolor: bool) -> Seq<RunV> {
    runs_of_tokens(tokens_of(syntax, line), line, truecolor)
}

/// The set of syntaxes and the theme, and whether the terminal has 24-bit color.
pub struct Highlighter {
    ps: SyntaxSet,
    theme: SyntaxTheme,
    truecolor: bool,
}

/// `two_face::syntax::extra_no_newlines`: bat's extended syntax set, for lines without their
/// newline. Nothing is claimed of it: the set is opaque, and what it gives for a file or a
/// line has a name of its own.
#[verifier::external_body]
fn extra_syntaxes() -> (r: SyntaxSet)
{
    two_face::syntax::extra_no_newlines()
}

/// `two_face::theme::extra` and its `DarkNeon` theme. This is the single source of the whole
/// look: the chrome palette is derived from it too. Nothing is claimed of it: the theme is
/// opaque.
#[verifier::external_body]
pub fn default_theme() -> (r: SyntaxTheme)
{
    two_face::theme::extra().get(EmbeddedThemeName::DarkNeon).clone()
}

impl Highlighter {
    /// Whether the colors are 24-bit.
    pub closed spec fn truecolor(&self) -> bool {
        self.truecolor
    }

    /// A highlighter with the default theme.
    pub fn new(truecolor: bool) -> (r: Highlighter)
        ensures
            r.truecolor() == truecolor,
    {
        Highlighter { ps: extra_syntaxes(), theme: default_theme(), truecolor }
    }

    /// Whether the colors are 24-bit.
    pub fn is_truecolor(&self) -> (r: bool)
        ensures
            r == self.truecolor(),
    {
        self.truecolor
    }

    /// `SyntaxSet::find_syntax_by_extension` on the extended set, which every highlighter
    /// holds: whether a syntax is found.
    #[verifier::external_body]
    fn by_extension(&self, ext: &str) -> (r: bool)
        ensures
            r == has_extension(ext@),
    {
        self.ps.find_syntax_by_extension(ext).is_some()
    }

    /// `SyntaxSet::find_syntax_by_token` on the extended set, which every highlighter holds:
    /// whether a syntax is found.
    #[verifier::external_body]
    fn by_token(&self, token: &str) -> (r: bool)
        ensures
            r == has_token(token@),
    {
        self.ps.find_syntax_by_token(token).is_some()
    }

    /// `HighlightLines::highlight_line` with a fresh state, in the syntax that is found under
    /// this extension or token (plain text where there is none) and the default theme: the
    /// foreground and the text of each token. Together the tokens are the line or a part of it
    /// from its start: the iteration over them ends early at a scope that cannot be restored.
    #[verifier::external_body]
    fn tokens(&self, syntax: &Syntax, line: &str) -> (r: Option<Vec<Token>>)
        ensures
            tokens_view(r) == tokens_of(syntax@, line@),
            r matches Some(v) ==> strs::concat(token_texts(strs::views(v@))).is_prefix_of(line@),
    {
        let s = match syntax {
            Syntax::Extension(e) => self.ps.find_syntax_by_extension(e),
            Syntax::Token(t) => self.ps.find_syntax_by_token(t),
            Syntax::Plain => None,
        }.unwrap_or_else(|| self.ps.find_syntax_plain_text());
        let ranges = HighlightLines::new(s, &self.theme).highlight_line(line, &self.ps).ok()?;
        let token = |(st, t): (syntect::highlighting::Style, &str)| {
            let c = st.foreground;
            Token { r: c.r, g: c.g, b: c.b, text: t.to_string() }
        };
        Some(ranges.into_iter().map(token).collect())
    }

    /// A field of `Theme::settings`, in the default theme, which every highlighter holds.
    #[verifier::external_body]
    fn setting(&self, which: Setting) -> (r: Option<Rgba>)
        ensures
            r == theme_setting(which),
    {
        let s = &self.theme.settings;
        let c = match which {
            Setting::Background => s.background,
            Setting::Foreground => s.foreground,
            Setting::Accent => s.accent,
            Setting::LineHighlight => s.line_highlight,
            Setting::Selection => s.selection,
        };
        c.map(|c| Rgba { rgb: Rgb { r: c.r, g: c.g, b: c.b }, alpha: c.a })
    }

    /// `Highlighter::style_for_stack` of a scope alone, in the default theme, which every
    /// highlighter holds: its foreground. `None` where `Scope::new` refuses the name; when it
    /// does is not stated, since it depends on how many scopes the process knows already.
    #[verifier::external_body]
    fn scope_color(&self, name: &str) -> (r: Option<Rgb>)
        ensures
            r matches Some(c) ==> c == scope_foreground(name@),
    {
        let scope = Scope::new(name).ok()?;
        let hl = syntect::highlighting::Highlighter::new(&self.theme);
        let c = hl.style_for_stack(&[scope]).foreground;
        Some(Rgb { r: c.r, g: c.g, b: c.b })
    }

    fn opaque_color(&self, which: Setting) -> (r: Option<Rgb>)
        ensures
            r == opaque_setting(which),
    {
        match self.setting(which) {
            Some(c) => Some(c.rgb),
            None => None,
        }
    }

    /// The colors of the theme that the palette of the interface is made of: its settings, and
    /// what it gives to a handful of scopes.
    pub fn colors(&self) -> (r: SyntaxColors)
        ensures
            r.background == opaque_setting(Setting::Background),
            r.foreground == opaque_setting(Setting::Foreground),
            r.accent == opaque_setting(Setting::Accent),
            r.line_highlight == theme_setting(Setting::LineHighlight),
            r.selection == theme_setting(Setting::Selection),
            of_scope(r.comment, "comment"@),
            of_scope(r.keyword, "keyword"@),
            of_scope(r.string, "string"@),
            of_scope(r.numeric, "constant.numeric"@),
            of_scope(r.markup_inserted, "markup.inserted"@),
            of_scope(r.diff_inserted, "diff.inserted"@),
            of_scope(r.markup_deleted, "markup.deleted"@),
            of_scope(r.diff_deleted, "diff.deleted"@),
    {
        SyntaxColors {
            background: self.opaque_color(Setting::Background),
            foreground: self.opaque_color(Setting::Foreground),
            accent: self.opaque_color(Setting::Accent),
            line_highlight: self.setting(Setting::LineHighlight),
            selection: self.setting(Setting::Selection),
            comment: self.scope_color("comment"),
            keyword: self.scope_color("keyword"),
            string: self.scope_color("string"),
            numeric: self.scope_color("constant.numeric"),
            markup_inserted: self.scope_color("markup.inserted"),
            diff_inserted: self.scope_color("diff.inserted"),
            markup_deleted: self.scope_color("markup.deleted"),
            diff_deleted: self.scope_color("diff.deleted"),
        }
    }

    /// Resolve a syntax by file path (extension or filename), else plain text.
    pub fn syntax_for(&self, path: &str) -> (r: Syntax)
        ensures
            r@ == syntax_of(path@),
    {
        let ext = match paths::extension_of(path) {
            Some(e) => e,
            None => String::new(),
        };
        if self.by_extension(ext.as_str()) {
            return Syntax::Extension(ext);
        }
        let name = match paths::file_name_of(path) {
            Some(n) => n,
            None => String::new(),
        };
        if self.by_token(name.as_str()) {
            Syntax::Token(name)
        } else {
            Syntax::Plain
        }
    }

    /// Highlight one line into runs of one color.
    pub fn line(&self, syntax: &Syntax, text: &str) -> (r: Vec<Run>)
        ensures
            strs::views(r@) == runs_in(syntax@, text@, self.truecolor()),
            strs::concat(run_texts(strs::views(r@))) == text@,
    {
        let tokens = self.tokens(syntax, text);
        colored_runs(tokens, text, self.truecolor)
    }
}

/// What tokens leave of a line.
pub open spec fn rest_of(tokens: Seq<((u8, u8, u8), Seq<char>)>, line: Seq<char>) -> Seq<char> {
    let n = strs::concat(token_texts(tokens)).len();
    if n < line.len() {
        line.skip(n as int)
    } else {
        Seq::empty()
    }
}

/// The runs of tokens, and a gray one with what they leave of the line. A line that cannot be
/// highlighted is one gray run.
pub open spec fn runs_of_tokens(
    tokens: Option<Seq<((u8, u8, u8), Seq<char>)>>,
    line: Seq<char>,
    truecolor: bool,
) -> Seq<RunV> {
    match tokens {
        Some(ts) => {
            let runs = Seq::new(ts.len(), |i: int| token_run(ts[i], truecolor));
            let rest = rest_of(ts, line);
            if rest.len() > 0 {
                runs.push(RunV { color: Color::Gray, text: rest })
            } else {
                runs
            }
        },
        None => seq![RunV { color: Color::Gray, text: line }],
    }
}

/// The view of optional tokens.
pub open spec fn tokens_view(tokens: Option<Vec<Token>>) -> Option<
    Seq<((u8, u8, u8), Seq<char>)>,
> {
    match tokens {
        Some(v) => Some(strs::views(v@)),
        None => None,
    }
}

/// The characters of a line from place `n` on.
fn tail_from(line: &str, n: usize) -> (r: String)
    requires
        n <= line@.len(),
    ensures
        r@ == line@.skip(n as int),
{
    let chars = strs::chars_of(line);
    let mut out = String::new();
    let mut i: usize = n;
    assert(out@ == line@.subrange(n as int, n as int));
    while i < chars.len()
        invariant
            chars@ == line@,
            n <= i <= chars.len(),
            out@ == line@.subrange(n as int, i as int),
        decreases chars.len() - i,
    {
        out.push(chars[i]);
        assert(line@.subrange(n as int, i + 1) == line@.subrange(n as int, i as int).push(
            line@[i as int],
        ));
        i += 1;
    }
    assert(line@.subrange(n as int, line@.len() as int) == line@.skip(n as int));
    out
}

/// Tokens as runs, downsampled on terminals without 24-bit color; what they leave of the line,
/// and a line without tokens, is a gray run.
pub fn colored_runs(tokens: Option<Vec<Token>>, line: &str, truecolor: bool) -> (r: Vec<Run>)
    ensures
        strs::views(r@) == runs_of_tokens(tokens_view(tokens), line@, truecolor),
        (tokens is Some ==> strs::concat(token_texts(tokens_view(tokens)->0)).is_prefix_of(line@))
            ==> strs::concat(run_texts(strs::views(r@))) == line@,
{
    broadcast use strs::lemma_views_push;

    match tokens {
        Some(v) => {
            let mut out: Vec<Run> = Vec::new();
            let mut i: usize = 0;
            let ghost ts = strs::views(v@);
            let ghost all = Seq::new(ts.len(), |i: int| token_run(ts[i], truecolor));
            let ghost texts = token_texts(ts);
            let len: usize = strs::chars_of(line).len();
            // What is left of the line.
            let mut left: usize = len;
            assert(texts.take(0) == Seq::<Seq<char>>::empty());
            while i < v.len()
                invariant
                    ts == strs::views(v@),
                    all == Seq::new(ts.len(), |i: int| token_run(ts[i], truecolor)),
                    texts == token_texts(ts),
                    0 <= i <= v.len(),
                    strs::views(out@) == all.take(i as int),
                    left <= len,
                    left == (if strs::concat(texts.take(i as int)).len() < len {
                        len - strs::concat(texts.take(i as int)).len()
                    } else {
                        0
                    }),
                decreases v.len() - i,
            {
                let t = &v[i];
                assert(t@ == ts[i as int]);
                let ghost before = out@;
                let n: usize = strs::chars_of(t.text.as_str()).len();
                left = if n < left {
                    left - n
                } else {
                    0
                };
                proof {
                    assert(texts.take(i + 1) == texts.take(i as int).push(t.text@));
                    strs::lemma_concat_push(texts.take(i as int), t.text@);
                }
                out.push(
                    Run {
                        color: adapt_color(Color::Rgb(t.r, t.g, t.b), truecolor),
                        text: t.text.clone(),
                    },
                );
                assert(strs::views(out@) == strs::views(before).push(all[i as int]));
                assert(all.take(i + 1) == all.take(i as int).push(all[i as int]));
                i += 1;
            }
            assert(all.take(all.len() as int) == all);
            assert(texts.take(texts.len() as int) == texts);
            assert(run_texts(all) =~= texts);
            if left > 0 {
                let ghost before = out@;
                let rest = tail_from(line, len - left);
                out.push(Run { color: Color::Gray, text: rest });
                proof {
                    assert(rest@ == rest_of(ts, line@));
                    let last = RunV { color: Color::Gray, text: rest@ };
                    assert(strs::views(out@) == strs::views(before).push(last));
                    assert(run_texts(all.push(last)) =~= texts.push(rest@));
                    strs::lemma_concat_push(texts, rest@);
                    let c = strs::concat(texts);
                    if c.is_prefix_of(line@) {
                        assert(c + line@.skip(c.len() as int) == line@);
                    }
                }
            } else {
                proof {
                    let c = strs::concat(texts);
                    if c.is_prefix_of(line@) {
                        assert(c == line@);
                    }
                }
            }
            out
        },
        None => {
            let mut out: Vec<Run> = Vec::new();
            out.push(Run { color: Color::Gray, text: strs::owned(line) });
            assert(strs::views(out@) == seq![RunV { color: Color::Gray, text: line@ }]);
            proof {
                let rv = strs::views(out@);
                assert(run_texts(rv) =~= Seq::<Seq<char>>::empty().push(line@));
                strs::lemma_concat_push(Seq::<Seq<char>>::empty(), line@);
                assert(Seq::<char>::empty() + line@ == line@);
            }
            out
        },
    }
}

} // verus!
