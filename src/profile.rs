//! The profile picture: a title, one labelled bar per language, and a
//! caption, laid out in thousandths of a unit.
use vstd::prelude::*;

use crate::error::Error;
use crate::github::{top_spec, topLanguages};
use crate::text::{decimal, milli_string, milli_text, u128_text};
use crate::usage::LangUsage;

verus! {

/// Colour scheme of the picture.
#[derive(Clone, Copy, Debug, PartialEq, Eq, Structural)]
pub enum Theme {
    Light,
    Dark,
}

/// Width of a bar of the largest language.
pub const BAR_MAX_WIDTH: u128 = 450;

/// Space between the right edge of the labels and the bars.
pub const LABEL_GAP: u128 = 20;

/// Foreground colour of a theme.
pub open spec fn theme_color(t: Theme) -> Seq<char> {
    match t {
        Theme::Light => "black"@,
        Theme::Dark => "rgb(201, 209, 217)"@,
    }
}

/// Height of one line, in thousandths.
pub open spec fn line_height(font: nat) -> nat {
    font * 1500
}

/// Right edge of the labels, in thousandths.
pub open spec fn label_x(width: nat) -> nat {
    ((width - BAR_MAX_WIDTH - LABEL_GAP) * 1000) as nat
}

/// Left edge of the bars, in thousandths.
pub open spec fn bar_x(width: nat) -> nat {
    ((width - BAR_MAX_WIDTH) * 1000) as nat
}

/// Baseline of the label of the entry at rank `i`, in thousandths.
pub open spec fn label_y(font: nat, i: nat) -> nat {
    line_height(font) * (i + 2)
}

/// Top of the bar of the entry at rank `i`, in thousandths.
pub open spec fn bar_y(font: nat, i: nat) -> nat {
    line_height(font) * (i + 1) + font * 500
}

/// Length of the bar of a language of `size` where the largest has `max`, in
/// thousandths, rounded down; 0 where `max` is 0.
pub open spec fn bar_width(size: nat, max: nat) -> nat {
    if max == 0 {
        0
    } else {
        BAR_MAX_WIDTH as nat * 1000 * size / max
    }
}

/// Baseline of the caption below `n` entries, in thousandths.
pub open spec fn footer_y(font: nat, n: nat) -> nat {
    line_height(font) * (n + 2)
}

/// Height of the canvas holding `n` entries, in thousandths.
pub open spec fn canvas_height(font: nat, n: nat) -> nat {
    line_height(font) * (n + 3)
}

pub open spec fn open_tag_text(width: nat, height: nat) -> Seq<char> {
    "<svg version=\"1.1\" baseProfile=\"full\"\n     width=\""@ + decimal(width)
        + "\" height=\""@ + milli_text(height) + "\"\n     xmlns=\"http://www.w3.org/2000/svg\">"@
}

pub open spec fn style_text(color: Seq<char>, font: nat) -> Seq<char> {
    "<style>\ntext\n{\nfont-family: monospace;\nfill: "@ + color + ";\nfont-size: "@
        + decimal(font) + "px;\n}\n.LangBar\n{\nfill: "@ + color + ";\n}\n  </style>"@
}

pub open spec fn title_text(font: nat) -> Seq<char> {
    "<text x=\"0\" y=\""@ + milli_text(line_height(font))
        + "\" width=\"100%\">Top languages:</text>"@
}

pub open spec fn label_text(width: nat, font: nat, i: nat, name: Seq<char>) -> Seq<char> {
    "<text x=\""@ + milli_text(label_x(width)) + "\" y=\""@ + milli_text(label_y(font, i))
        + "\" width=\""@ + milli_text(label_x(width)) + "\"\ntext-anchor=\"end\" >"@ + name
        + "</text>"@
}

pub open spec fn bar_text(width: nat, font: nat, i: nat, size: nat, max: nat) -> Seq<char> {
    "<rect class=\"LangBar\" x=\""@ + milli_text(bar_x(width)) + "\" y=\""@ + milli_text(
        bar_y(font, i),
    ) + "\" width=\""@ + milli_text(bar_width(size, max)) + "\"\nheight=\""@ + decimal(font)
        + "\" />"@
}

pub open spec fn footer_text(font: nat, n: nat) -> Seq<char> {
    "<text x=\"0\" y=\""@ + milli_text(footer_y(font, n))
        + "\" style=\"font-size: 8px\">\nThis is a test.</text>"@
}

/// The label and bar lines of the entries of `es`, each line ended by a
/// newline.
pub open spec fn entries_text(es: Seq<(Seq<char>, u64)>, width: nat, font: nat, max: nat) -> Seq<
    char,
>
    decreases es.len(),
{
    if es.len() == 0 {
        Seq::empty()
    } else {
        let i = (es.len() - 1) as nat;
        entries_text(es.drop_last(), width, font, max) + label_text(width, font, i, es.last().0)
            + "\n"@ + bar_text(width, font, i, es.last().1 as nat, max) + "\n"@
    }
}

/// The whole picture of the ranked entries `es`; bar lengths are relative to
/// the size of the first entry.
pub open spec fn svg_doc(es: Seq<(Seq<char>, u64)>, width: nat, font: nat, theme: Theme) -> Seq<
    char,
> {
    open_tag_text(width, canvas_height(font, es.len())) + "\n"@ + style_text(
        theme_color(theme),
        font,
    ) + "\n"@ + title_text(font) + "\n"@ + entries_text(es, width, font, es[0].1 as nat)
        + footer_text(font, es.len()) + "\n"@ + "</svg>\n"@
}

/// The largest language gets a bar of the full width, and a language half as
/// large as the largest gets a bar exactly half as long.
pub proof fn lemma_bar_half(size: nat, max: nat)
    requires
        max > 0,
        2 * size == max,
    ensures
        bar_width(max, max) == 450000,
        2 * bar_width(size, max) == bar_width(max, max),
{
    vstd::arithmetic::div_mod::lemma_div_multiples_vanish(450000, max as int);
    vstd::arithmetic::div_mod::lemma_div_multiples_vanish(225000, max as int);
    assert(450000 * max == max * 450000);
    assert(450000 * size == max * 225000);
}

impl Theme {
    /// Reads a theme name: "light" or "dark".
    pub fn parse(s: &str) -> (r: Result<Theme, Error>)
        ensures
            s@ == "light"@ ==> r == Ok::<Theme, Error>(Theme::Light),
            s@ == "dark"@ ==> r == Ok::<Theme, Error>(Theme::Dark),
            s@ != "light"@ && s@ != "dark"@ ==> (r matches Err(Error::InvalidTheme(t)) && t@
                == s@),
    {
        let given = s.to_owned();
        let light = String::from_str("light");
        let dark = String::from_str("dark");
        proof {
            reveal_strlit("light");
            reveal_strlit("dark");
            assert("light"@[0] != "dark"@[0]);
        }
        if given == light {
            Ok(Theme::Light)
        } else if given == dark {
            Ok(Theme::Dark)
        } else {
            Err(Error::InvalidTheme(given))
        }
    }
}

impl core::str::FromStr for Theme {
    type Err = Error;

    fn from_str(s: &str) -> (r: Result<Theme, Error>)
        ensures
            s@ == "light"@ ==> r == Ok::<Theme, Error>(Theme::Light),
            s@ == "dark"@ ==> r == Ok::<Theme, Error>(Theme::Dark),
            s@ != "light"@ && s@ != "dark"@ ==> (r matches Err(Error::InvalidTheme(t)) && t@
                == s@),
    {
        Theme::parse(s)
    }
}

/// Settings of the picture, and the languages it shows.
pub struct Profile {
    /// Canvas width.
    pub width: u32,
    /// Font size, also the height of a bar.
    pub font_size: u32,
    /// How many languages to show.
    pub top_langs_count: usize,
    /// Languages never shown.
    pub top_langs_ignored: Vec<String>,
    /// Width reserved for the labels.
    pub top_langs_text_width: u32,
    pub theme: Theme,
    /// The ranked languages, largest first.
    pub top_langs: Vec<(String, u64)>,
}

impl Default for Profile {
    fn default() -> (r: Profile)
        ensures
            r.width == 600,
            r.font_size == 12,
            r.top_langs_count == 5,
            r.top_langs_ignored.deep_view() == seq!["HTML"@],
            r.top_langs_text_width == 150,
            r.theme == Theme::Dark,
            r.top_langs@.len() == 0,
    {
        let mut ignores: Vec<String> = Vec::new();
        ignores.push(String::from_str("HTML"));
        assert(ignores.deep_view() =~= seq!["HTML"@]);
        Profile {
            width: 600,
            font_size: 12,
            top_langs_count: 5,
            top_langs_ignored: ignores,
            top_langs_text_width: 150,
            theme: Theme::Dark,
            top_langs: Vec::new(),
        }
    }
}

proof fn lemma_mul_le(a: nat, b: nat, x: nat, y: nat)
    requires
        a <= x,
        b <= y,
    ensures
        a * b <= x * y,
{
    assert(a * b <= x * y) by (nonlinear_arith)
        requires
            a <= x,
            b <= y,
    ;
}

fn open_tag_line(width: u32, height: u128) -> (r: String)
    ensures
        r@ == open_tag_text(width as nat, height as nat),
{
    let mut r = String::from_str("<svg version=\"1.1\" baseProfile=\"full\"\n     width=\"");
    r.append(u128_text(width as u128).as_str());
    r.append("\" height=\"");
    r.append(milli_string(height).as_str());
    r.append("\"\n     xmlns=\"http://www.w3.org/2000/svg\">");
    r
}

fn style_line(color: &str, font: u32) -> (r: String)
    ensures
        r@ == style_text(color@, font as nat),
{
    let mut r = String::from_str("<style>\ntext\n{\nfont-family: monospace;\nfill: ");
    r.append(color);
    r.append(";\nfont-size: ");
    r.append(u128_text(font as u128).as_str());
    r.append("px;\n}\n.LangBar\n{\nfill: ");
    r.append(color);
    r.append(";\n}\n  </style>");
    r
}

fn title_line(font: u32) -> (r: String)
    ensures
        r@ == title_text(font as nat),
{
    let mut r = String::from_str("<text x=\"0\" y=\"");
    r.append(milli_string(font as u128 * 1500).as_str());
    r.append("\" width=\"100%\">Top languages:</text>");
    r
}

fn label_line(width: u32, font: u32, i: usize, name: &String) -> (r: String)
    requires
        width > 470,
    ensures
        r@ == label_text(width as nat, font as nat, i as nat, name@),
{
    let x = milli_string((width as u128 - BAR_MAX_WIDTH - LABEL_GAP) * 1000);
    proof {
        lemma_mul_le(font as nat * 1500, i as nat + 2, 0x1_0000_0000 * 1500, 0x1_0000_0000_0000_0002);
    }
    let y = milli_string(font as u128 * 1500 * (i as u128 + 2));
    let mut r = String::from_str("<text x=\"");
    r.append(x.as_str());
    r.append("\" y=\"");
    r.append(y.as_str());
    r.append("\" width=\"");
    r.append(x.as_str());
    r.append("\"\ntext-anchor=\"end\" >");
    r.append(name.as_str());
    r.append("</text>");
    r
}

fn bar_line(width: u32, font: u32, i: usize, size: u64, max: u64) -> (r: String)
    requires
        width > 470,
    ensures
        r@ == bar_text(width as nat, font as nat, i as nat, size as nat, max as nat),
{
    let x = milli_string((width as u128 - BAR_MAX_WIDTH) * 1000);
    proof {
        lemma_mul_le(font as nat * 1500, i as nat + 1, 0x1_0000_0000 * 1500, 0x1_0000_0000_0000_0001);
    }
    let y = milli_string(font as u128 * 1500 * (i as u128 + 1) + font as u128 * 500);
    let w = if max == 0 {
        0
    } else {
        BAR_MAX_WIDTH * 1000 * (size as u128) / (max as u128)
    };
    let w_text = milli_string(w);
    let mut r = String::from_str("<rect class=\"LangBar\" x=\"");
    r.append(x.as_str());
    r.append("\" y=\"");
    r.append(y.as_str());
    r.append("\" width=\"");
    r.append(w_text.as_str());
    r.append("\"\nheight=\"");
    r.append(u128_text(font as u128).as_str());
    r.append("\" />");
    r
}

fn footer_line(font: u32, n: usize) -> (r: String)
    ensures
        r@ == footer_text(font as nat, n as nat),
{
    proof {
        lemma_mul_le(font as nat * 1500, n as nat + 2, 0x1_0000_0000 * 1500, 0x1_0000_0000_0000_0002);
    }
    let mut r = String::from_str("<text x=\"0\" y=\"");
    r.append(milli_string(font as u128 * 1500 * (n as u128 + 2)).as_str());
    r.append("\" style=\"font-size: 8px\">\nThis is a test.</text>");
    r
}

impl Profile {
    /// Foreground colour of the theme, for text and bars.
    pub fn colorForeground(&self) -> (r: &str)
        ensures
            r@ == theme_color(self.theme),
    {
        match self.theme {
            Theme::Light => "black",
            Theme::Dark => "rgb(201, 209, 217)",
        }
    }

    /// Ranks `usage` with this profile's count and ignored languages, and
    /// keeps the result as the languages to show.
    pub fn rankUsage(&mut self, usage: LangUsage)
        ensures
            final(self).top_langs.deep_view() == top_spec(
                usage@,
                old(self).top_langs_ignored.deep_view(),
                old(self).top_langs_count as nat,
            ),
            final(self).width == old(self).width,
            final(self).font_size == old(self).font_size,
            final(self).top_langs_count == old(self).top_langs_count,
            final(self).top_langs_ignored == old(self).top_langs_ignored,
            final(self).top_langs_text_width == old(self).top_langs_text_width,
            final(self).theme == old(self).theme,
    {
        self.top_langs = topLanguages(usage, self.top_langs_count, &self.top_langs_ignored);
    }

    /// The picture of the ranked languages. Fails with `InvalidConfig` where
    /// the canvas is not wider than the bar area with its gap (470) or the
    /// font size is 0, and otherwise with `EmptyInput` where there is no
    /// language to show.
    pub fn genSvg(&self) -> (r: Result<String, Error>)
        ensures
            self.width <= 470 || self.font_size == 0 ==> r == Err::<String, Error>(
                Error::InvalidConfig,
            ),
            self.width > 470 && self.font_size > 0 && self.top_langs.len() == 0 ==> r == Err::<
                String,
                Error,
            >(Error::EmptyInput),
            self.width > 470 && self.font_size > 0 && self.top_langs.len() > 0 ==> (r matches Ok(
                doc,
            ) && doc@ == svg_doc(
                self.top_langs.deep_view(),
                self.width as nat,
                self.font_size as nat,
                self.theme,
            )),
    {
        if self.width <= 470 || self.font_size == 0 {
            return Err(Error::InvalidConfig);
        }
        let n = self.top_langs.len();
        if n == 0 {
            return Err(Error::EmptyInput);
        }
        let ghost es = self.top_langs.deep_view();
        let max = self.top_langs[0].1;
        assert(es[0].1 == max);
        let mut body = String::new();
        let mut i: usize = 0;
        assert(es.take(0) =~= Seq::<(Seq<char>, u64)>::empty());
        while i < n
            invariant
                n == self.top_langs.len(),
                es == self.top_langs.deep_view(),
                self.width > 470,
                i <= n,
                body@ == entries_text(
                    es.take(i as int),
                    self.width as nat,
                    self.font_size as nat,
                    max as nat,
                ),
            decreases n - i,
        {
            let name = &self.top_langs[i].0;
            let size = self.top_langs[i].1;
            assert(es[i as int] == (name@, size));
            assert(es.take(i + 1).drop_last() =~= es.take(i as int));
            let label = label_line(self.width, self.font_size, i, name);
            let bar = bar_line(self.width, self.font_size, i, size, max);
            body.append(label.as_str());
            body.append("\n");
            body.append(bar.as_str());
            body.append("\n");
            i += 1;
        }
        assert(es.take(n as int) =~= es);
        proof {
            lemma_mul_le(self.font_size as nat * 1500, n as nat + 3, 0x1_0000_0000 * 1500, 0x1_0000_0000_0000_0003);
        }
        let height = self.font_size as u128 * 1500 * (n as u128 + 3);
        let mut doc = open_tag_line(self.width, height);
        doc.append("\n");
        doc.append(style_line(self.colorForeground(), self.font_size).as_str());
        doc.append("\n");
        doc.append(title_line(self.font_size).as_str());
        doc.append("\n");
        doc.append(body.as_str());
        doc.append(footer_line(self.font_size, n).as_str());
        doc.append("\n");
        doc.append("</svg>\n");
        Ok(doc)
    }
}

} // verus!
