use syntect::easy::HighlightLines;
use syntect::highlighting::Theme;
use syntect::parsing::{SyntaxReference, SyntaxSet};
use vstd::prelude::*;

use crate::color::Rgba;
use crate::render::{draw_regions, region_views, render_regions, segments_view, Segment, StyledRegion};
use crate::tabs::{expand_tabs, expanded};

verus! {

#[verifier::external_type_specification]
#[verifier::external_body]
pub struct ExHighlightLines<'a>(HighlightLines<'a>);

#[verifier::external_type_specification]
#[verifier::external_body]
pub struct ExSyntaxSet(SyntaxSet);

#[verifier::external_type_specification]
#[verifier::external_body]
pub struct ExTheme(Theme);

#[verifier::external_type_specification]
#[verifier::external_body]
pub struct ExSyntaxReference(SyntaxReference);

/// A highlighting session over one input: the grammar's state across lines,
/// together with the syntax set that the grammar was taken from, which is the
/// only one it may be used with.
pub struct Session<'a> {
    highlighter: HighlightLines<'a>,
    syntax_set: &'a SyntaxSet,
}

/// Relies on syntect's `SyntaxSet::find_syntax_by_name`: the grammar of
/// that name in the set, if there is one.
#[verifier::external_body]
fn syntax_by_name<'a>(syntax_set: &'a SyntaxSet, name: &str) -> Option<&'a SyntaxReference>
{
    syntax_set.find_syntax_by_name(name)
}

/// Relies on syntect's `HighlightLines::new`: a fresh highlighting state for
/// a grammar and a theme.
#[verifier::external_body]
fn start_highlighting<'a>(syntax: &SyntaxReference, theme: &'a Theme) -> HighlightLines<'a>
{
    HighlightLines::new(syntax, theme)
}

impl<'a> Session<'a> {
    /// A session for the grammar named `grammar` in `syntax_set`, or `None`
    /// where the set has no grammar of that name.
    pub fn new(syntax_set: &'a SyntaxSet, theme: &'a Theme, grammar: &str) -> Option<Session<'a>> {
        match syntax_by_name(syntax_set, grammar) {
            Some(syntax) => Some(Session { highlighter: start_highlighting(syntax, theme), syntax_set }),
            None => None,
        }
    }
}

/// The texts of a line's regions, one after another.
pub open spec fn joined(rs: Seq<(Rgba, Seq<char>)>) -> Seq<char>
    decreases rs.len(),
{
    if rs.len() == 0 {
        Seq::empty()
    } else {
        joined(rs.drop_last()) + rs.last().1
    }
}

/// Relies on syntect's `HighlightLines::highlight`: the regions come in
/// order and their texts, joined, make the line again. Their styles depend
/// on the grammar and on the lines highlighted before. The session holds the
/// syntax set its grammar came from, which is what the call needs to be
/// well defined.
#[verifier::external_body]
fn highlight(session: &mut Session, line: &str) -> (r: Vec<StyledRegion>)
    ensures
        joined(region_views(r@)) == line@,
{
    let mut regions = Vec::new();
    for (style, text) in session.highlighter.highlight(line, session.syntax_set) {
        let c = style.foreground;
        regions.push(StyledRegion { style: Rgba { r: c.r, g: c.g, b: c.b, a: c.a }, text: text.to_string() });
    }
    regions
}

/// How the grammar of an input is to be found.
#[derive(Clone, Debug, PartialEq, Eq)]
pub enum SyntaxQuery {
    /// By the language name or extension given in the settings.
    Token(String),
    /// By the name of the file.
    FileName,
    /// By the first line of the input.
    FirstLine,
}

/// Settings of a run, gathered before the printer is made.
pub struct PrinterBuilder {
    language: Option<String>,
    columns: usize,
    tabs: usize,
    true_color: bool,
}

/// Draws lines of text as colored blocks, with the settings it was built with.
pub struct Printer {
    language: Option<String>,
    columns: usize,
    tabs: usize,
    true_color: bool,
}

pub open spec fn opt_view(o: Option<String>) -> Option<Seq<char>> {
    match o {
        Some(s) => Some(s@),
        None => None,
    }
}

impl PrinterBuilder {
    pub closed spec fn language_spec(&self) -> Option<Seq<char>> {
        opt_view(self.language)
    }

    pub closed spec fn columns_spec(&self) -> usize {
        self.columns
    }

    pub closed spec fn tabs_spec(&self) -> usize {
        self.tabs
    }

    pub closed spec fn true_color_spec(&self) -> bool {
        self.true_color
    }

    /// No language, no column limit, tabs of four, no 24-bit color.
    pub fn new() -> (r: PrinterBuilder)
        ensures
            r.language_spec() is None,
            r.columns_spec() == usize::MAX,
            r.tabs_spec() == 4,
            !r.true_color_spec(),
    {
        PrinterBuilder { language: None, columns: usize::MAX, tabs: 4, true_color: false }
    }

    /// A printer with these settings.
    pub fn build(&self) -> (r: Printer)
        ensures
            r.language_spec() == self.language_spec(),
            r.columns_spec() == self.columns_spec(),
            r.tabs_spec() == self.tabs_spec(),
            r.true_color_spec() == self.true_color_spec(),
    {
        let language = match &self.language {
            Some(l) => Some(l.clone()),
            None => None,
        };
        Printer { language, columns: self.columns, tabs: self.tabs, true_color: self.true_color }
    }

    /// Forces the language, by name or extension.
    pub fn language(&mut self, language: &str) -> (r: &mut PrinterBuilder)
        ensures
            r.language_spec() == Some(language@),
            r.columns_spec() == old(self).columns_spec(),
            r.tabs_spec() == old(self).tabs_spec(),
            r.true_color_spec() == old(self).true_color_spec(),
            *final(self) == *final(r),
    {
        self.language = Some(String::from_str(language));
        self
    }

    /// Limits the columns drawn of each line.
    pub fn columns(&mut self, columns: usize) -> (r: &mut PrinterBuilder)
        ensures
            r.language_spec() == old(self).language_spec(),
            r.columns_spec() == columns,
            r.tabs_spec() == old(self).tabs_spec(),
            r.true_color_spec() == old(self).true_color_spec(),
            *final(self) == *final(r),
    {
        self.columns = columns;
        self
    }

    /// Sets the tab width; zero passes tabs through.
    pub fn tabs(&mut self, tabs: usize) -> (r: &mut PrinterBuilder)
        ensures
            r.language_spec() == old(self).language_spec(),
            r.columns_spec() == old(self).columns_spec(),
            r.tabs_spec() == tabs,
            r.true_color_spec() == old(self).true_color_spec(),
            *final(self) == *final(r),
    {
        self.tabs = tabs;
        self
    }

    /// Says whether the terminal shows 24-bit color.
    pub fn true_color(&mut self, yes: bool) -> (r: &mut PrinterBuilder)
        ensures
            r.language_spec() == old(self).language_spec(),
            r.columns_spec() == old(self).columns_spec(),
            r.tabs_spec() == old(self).tabs_spec(),
            r.true_color_spec() == yes,
            *final(self) == *final(r),
    {
        self.true_color = yes;
        self
    }
}

impl Default for PrinterBuilder {
    /// No language, no column limit, tabs of four, no 24-bit color.
    fn default() -> (r: PrinterBuilder)
        ensures
            r.language_spec() is None,
            r.columns_spec() == usize::MAX,
            r.tabs_spec() == 4,
            !r.true_color_spec(),
    {
        PrinterBuilder::new()
    }
}

impl Printer {
    pub closed spec fn language_spec(&self) -> Option<Seq<char>> {
        opt_view(self.language)
    }

    pub closed spec fn columns_spec(&self) -> usize {
        self.columns
    }

    pub closed spec fn tabs_spec(&self) -> usize {
        self.tabs
    }

    pub closed spec fn true_color_spec(&self) -> bool {
        self.true_color
    }

    /// Where the grammar comes from: the forced language first, else the
    /// file's name when there is a file, else the first line.
    pub fn syntax_query(&self, from_file: bool) -> (r: SyntaxQuery)
        ensures
            match self.language_spec() {
                Some(l) => r matches SyntaxQuery::Token(t) && t@ == l,
                None => r == (if from_file { SyntaxQuery::FileName } else { SyntaxQuery::FirstLine }),
            },
    {
        match &self.language {
            Some(l) => SyntaxQuery::Token(l.clone()),
            None => {
                if from_file {
                    SyntaxQuery::FileName
                } else {
                    SyntaxQuery::FirstLine
                }
            },
        }
    }

    /// A line as it is highlighted: its tabs expanded, or kept where the
    /// tab width is zero.
    pub fn prepare_line(&self, raw: &str) -> (r: String)
        ensures
            r@ == expanded(raw@, self.tabs_spec() as nat),
    {
        expand_tabs(raw, self.tabs)
    }

    /// The output for a line's styled regions, within the column limit.
    pub fn render_line(&self, regions: &Vec<StyledRegion>) -> (r: Vec<Segment>)
        ensures
            segments_view(r@) == render_regions(region_views(regions@), self.columns_spec() as nat, self.true_color_spec()),
    {
        draw_regions(regions, self.columns, self.true_color)
    }

    /// Highlights a prepared line and returns its output: the drawing of
    /// some regions whose texts make up the line.
    pub fn print_line(&self, line: &str, session: &mut Session) -> (r: Vec<Segment>)
        ensures
            exists|rs: Seq<(Rgba, Seq<char>)>|
                joined(rs) == line@ && segments_view(r@) == render_regions(rs, self.columns_spec() as nat, self.true_color_spec()),
    {
        let regions = highlight(session, line);
        self.render_line(&regions)
    }
}

} // verus!
