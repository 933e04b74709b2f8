//! How code is colored: by the syntax that a path asks for, token by token.
use crate::diff::model::HunkV;
use crate::str_laws;
use crate::ui::highlight;
use crate::ui::highlight::SyntaxV;
use crate::ui::style::Color;
use crate::ui::theme;
use crate::ui::warm;
use vstd::prelude::*;

verus! {

/// The syntax of a file goes by its extension, where that has one, and else by its name.
pub proof fn law_syntax_goes_by_extension_and_name(dir: Seq<char>, name: Seq<char>, ext: Seq<char>)
    requires
        name.len() > 0,
        !name.contains('/'),
        ext.len() > 0,
        !ext.contains('/') && !ext.contains('.'),
    ensures
        ({
            let file = name + seq!['.'] + ext;
            let s = highlight::syntax_of(dir + seq!['/'] + file);
            &&& highlight::has_extension(ext) ==> s == SyntaxV::Extension(ext)
            &&& !highlight::has_extension(ext) && highlight::has_token(file) ==> s
                == SyntaxV::Token(file)
            &&& !highlight::has_extension(ext) && !highlight::has_token(file) ==> s
                == SyntaxV::Plain
        }),
{
    str_laws::law_extensions_stand_behind_the_last_dot(dir, name, ext);
}

/// Every token keeps its text and, where the terminal has all colors, its color; where it has
/// not, the color is one of the palette. Colors that are no mixture are kept in any case.
pub proof fn law_tokens_keep_text_and_color(
    ts: Seq<((u8, u8, u8), Seq<char>)>,
    line: Seq<char>,
    truecolor: bool,
    i: int,
    c: Color,
)
    requires
        0 <= i < ts.len(),
    ensures
        ({
            let runs = highlight::runs_of_tokens(Some(ts), line, truecolor);
            &&& runs.len() >= ts.len() && runs[i].text == ts[i].1
            &&& truecolor ==> runs[i].color == Color::Rgb(ts[i].0.0, ts[i].0.1, ts[i].0.2)
            &&& !truecolor ==> runs[i].color is Indexed
        }),
        truecolor ==> theme::adapted(c, truecolor) == c,
        !(c is Rgb) ==> theme::adapted(c, truecolor) == c,
        highlight::runs_of_tokens(None, line, truecolor).len() == 1,
        highlight::runs_of_tokens(None, line, truecolor)[0].text == line,
{
}

/// How many lines the first `n` hunks have.
pub open spec fn lines_in(hunks: Seq<HunkV>, n: nat) -> nat
    decreases n,
{
    if n == 0 {
        0
    } else {
        lines_in(hunks, (n - 1) as nat) + hunks[n - 1].lines.len()
    }
}

/// The lines of a file are made ready in their order, hunk by hunk.
pub proof fn law_lines_are_made_ready_in_order(hunks: Seq<HunkV>, n: nat, h: nat, k: int)
    requires
        h < n <= hunks.len(),
        0 <= k < hunks[h as int].lines.len(),
    ensures
        warm::hunk_texts(hunks, n).len() == lines_in(hunks, n),
        lines_in(hunks, h) + k < lines_in(hunks, n),
        warm::hunk_texts(hunks, n)[lines_in(hunks, h) + k] == hunks[h as int].lines[k].text,
    decreases n,
{
    lemma_texts(hunks, (n - 1) as nat);
    if h < n - 1 {
        law_lines_are_made_ready_in_order(hunks, (n - 1) as nat, h, k);
    }
}

proof fn lemma_texts(hunks: Seq<HunkV>, n: nat)
    ensures
        warm::hunk_texts(hunks, n).len() == lines_in(hunks, n),
    decreases n,
{
    if n > 0 {
        lemma_texts(hunks, (n - 1) as nat);
    }
}

} // verus!
