//! Colouring a line of text by its syntax.

use vstd::prelude::*;
use syntect::easy::HighlightLines;
use syntect::highlighting::ThemeSet;
use syntect::parsing::SyntaxSet;
use crate::cell::{cells_of, push_cells, push_text, text_of, Cell};
use crate::text::chars_of;
use crate::util::{lemma_nearest_exists, nearest, resolve};

verus! {

/// `SyntaxSet` of syntect, a set of syntax definitions. The library hands it
/// to syntect and reads nothing of it.
#[verifier::external_type_specification]
#[verifier::external_body]
pub struct ExSyntaxSet(SyntaxSet);

/// `ThemeSet` of syntect, themes by name. The library hands it to syntect and
/// reads nothing of it.
#[verifier::external_type_specification]
#[verifier::external_body]
pub struct ExThemeSet(ThemeSet);

/// Name of the theme whose colours the lines are given.
pub const THEME: &'static str = "base16-ocean.dark";

/// The styled pieces that syntect gives for `line` under the syntax called
/// `syntax` of `syntaxes` and the theme called `theme` of `themes`, if it gives
/// any.
pub uninterp spec fn highlighted(
    syntaxes: SyntaxSet,
    syntax: Seq<char>,
    themes: ThemeSet,
    theme: Seq<char>,
    line: Seq<char>,
) -> Option<Seq<StyleSpanView>>;

/// The syntax that a buffer is coloured by: the set of syntax definitions that
/// syntect is packaged with, and the name of the one to use.
pub struct Highlighter {
    syntaxes: SyntaxSet,
    syntax: String,
}

/// A piece of a line and the foreground colour that its style gives it.
#[derive(Debug)]
pub struct StyleSpan {
    pub red: u8,
    pub green: u8,
    pub blue: u8,
    pub text: String,
}

/// A [`StyleSpan`] with its text as a sequence of characters.
pub struct StyleSpanView {
    pub red: u8,
    pub green: u8,
    pub blue: u8,
    pub text: Seq<char>,
}

impl View for StyleSpan {
    type V = StyleSpanView;

    open spec fn view(&self) -> StyleSpanView {
        StyleSpanView { red: self.red, green: self.green, blue: self.blue, text: self.text@ }
    }
}

/// The spans of a list as mathematical values.
pub open spec fn views(spans: Seq<StyleSpan>) -> Seq<StyleSpanView> {
    spans.map_values(|span: StyleSpan| span@)
}

/// The text of all spans, one after the other.
pub open spec fn spans_text(spans: Seq<StyleSpanView>) -> Seq<char>
    decreases spans.len(),
{
    if spans.len() == 0 {
        Seq::empty()
    } else {
        spans_text(spans.drop_last()) + spans.last().text
    }
}

/// The palette index that the colour of `span` resolves to.
pub open spec fn span_color(span: StyleSpanView) -> u8 {
    nearest(span.red, span.green, span.blue) as u8
}

/// The cells that the spans spell: every character of every span, in the
/// palette colour of its span.
pub open spec fn styled(spans: Seq<StyleSpanView>) -> Seq<Cell>
    decreases spans.len(),
{
    if spans.len() == 0 {
        Seq::empty()
    } else {
        styled(spans.drop_last()) + cells_of(spans.last().text, span_color(spans.last()))
    }
}

/// `row` rebuilt from the spans: the styled cells, followed by the cells of
/// `row` beyond their number.
pub open spec fn restyled(row: Seq<Cell>, spans: Seq<StyleSpanView>) -> Seq<Cell> {
    let cells = styled(spans);
    if cells.len() <= row.len() {
        cells + row.subrange(cells.len() as int, row.len() as int)
    } else {
        cells
    }
}

/// The styled cells spell the text of the spans.
pub proof fn lemma_styled_text(spans: Seq<StyleSpanView>)
    ensures
        text_of(styled(spans)) == spans_text(spans),
        styled(spans).len() == spans_text(spans).len(),
    decreases spans.len(),
{
    if spans.len() > 0 {
        lemma_styled_text(spans.drop_last());
        let head = styled(spans.drop_last());
        let tail = cells_of(spans.last().text, span_color(spans.last()));
        assert(text_of(head + tail) =~= text_of(head) + spans.last().text);
    } else {
        assert(text_of(styled(spans)) =~= spans_text(spans));
    }
}

/// Restyling a row with spans that spell the beginning of its text changes
/// colours only: the text of the row stays.
pub proof fn lemma_restyled_keeps_text(row: Seq<Cell>, spans: Seq<StyleSpanView>)
    requires
        spans_text(spans).is_prefix_of(text_of(row)),
    ensures
        text_of(restyled(row, spans)) == text_of(row),
        restyled(row, spans).len() == row.len(),
{
    lemma_styled_text(spans);
    let cells = styled(spans);
    assert(text_of(restyled(row, spans)) =~= text_of(row)) by {
        assert forall|i: int| 0 <= i < row.len() implies text_of(restyled(row, spans))[i]
            == text_of(row)[i] by {
            if i < cells.len() {
                assert(text_of(cells)[i] == spans_text(spans)[i]);
            }
        }
    }
}

/// `SyntaxSet::load_defaults_nonewlines` of syntect: the set of syntax
/// definitions that syntect is packaged with, for lines without a line feed
/// at their end. Nothing is claimed of the set. syntect unpacks it through a
/// table of scope names that the whole process shares, and panics if that
/// table is full, which nothing in this library brings about.
#[verifier::external_body]
fn packaged_syntaxes() -> (syntaxes: SyntaxSet) {
    SyntaxSet::load_defaults_nonewlines()
}

impl Highlighter {
    /// The set of syntax definitions.
    pub closed spec fn syntaxes(&self) -> SyntaxSet {
        self.syntaxes
    }

    /// The name of the syntax that lines are coloured by.
    pub closed spec fn syntax(&self) -> Seq<char> {
        self.syntax@
    }

    /// The syntax called `syntax` of the set that syntect is packaged with.
    pub fn packaged(syntax: String) -> (highlighter: Highlighter)
        ensures
            highlighter.syntax() == syntax@,
    {
        Highlighter { syntaxes: packaged_syntaxes(), syntax }
    }

    /// The name of the syntax that lines are coloured by.
    pub fn syntax_name(&self) -> (name: &String)
        ensures
            name@ == self.syntax(),
    {
        &self.syntax
    }
}

/// `SyntaxSet::find_syntax_by_name`, `HighlightLines::new` and
/// `HighlightLines::highlight_line` of syntect: the styled pieces of `line`
/// under the syntax that `highlighter` names and the theme of `themes` called
/// `theme`, each piece with the red, green and blue of its foreground. The
/// syntax is looked up in the set that the line is then parsed with, as syntect
/// asks. The answer depends on these values alone.
///
/// The pieces are consecutive slices of `line` that start at its beginning, so
/// their texts together spell a prefix of `line` (all of it, unless syntect
/// stops early). `None` where the set holds no syntax of that name, `themes` no
/// theme of that name, or syntect reports an error.
///
/// The set is always the one that syntect is packaged with: a `Highlighter` is
/// made in no other way. That syntect returns for every line under every
/// syntax of that set is not claimed here and is not shown by its source. It
/// panics where a pattern that refers to the text of an earlier match does not
/// compile with that text in place, where a match leaves its scope changes out
/// of order, and where the table of scope names of the process is full.
#[verifier::external_body]
pub(crate) fn classify(
    highlighter: &Highlighter,
    themes: &ThemeSet,
    theme: &str,
    line: &str,
) -> (spans: Option<Vec<StyleSpan>>)
    ensures
        match spans {
            Some(pieces) => highlighted(
                highlighter.syntaxes(),
                highlighter.syntax(),
                *themes,
                theme@,
                line@,
            ) == Some(views(pieces@)) && spans_text(views(pieces@)).is_prefix_of(line@),
            None => highlighted(
                highlighter.syntaxes(),
                highlighter.syntax(),
                *themes,
                theme@,
                line@,
            ) is None,
        },
{
    let syntax = highlighter.syntaxes.find_syntax_by_name(&highlighter.syntax)?;
    let theme = themes.themes.get(theme)?;
    let mut lines = HighlightLines::new(syntax, theme);
    let pieces = lines.highlight_line(line, &highlighter.syntaxes).ok()?;
    Some(pieces.into_iter().map(|(style, text)| StyleSpan {
        red: style.foreground.r,
        green: style.foreground.g,
        blue: style.foreground.b,
        text: text.to_string(),
    }).collect())
}

/// Every cell that spans spell has a palette colour from 16 to 255.
pub proof fn lemma_styled_colors(spans: Seq<StyleSpanView>, i: int)
    requires
        0 <= i < styled(spans).len(),
    ensures
        16 <= styled(spans)[i].fg <= 255,
    decreases spans.len(),
{
    let head = styled(spans.drop_last());
    let last = spans.last();
    lemma_nearest_exists(last.red, last.green, last.blue);
    if i < head.len() {
        lemma_styled_colors(spans.drop_last(), i);
    } else {
        assert(styled(spans)[i] == cells_of(last.text, span_color(last))[i - head.len()]);
    }
}

/// Rebuilds a row from style spans: the characters of every span in the
/// palette colour of the span, then the cells of `row` that lie beyond.
pub fn restyle(row: &Vec<Cell>, spans: &Vec<StyleSpan>) -> (cells: Vec<Cell>)
    ensures
        cells@ == restyled(row@, views(spans@)),
{
    let mut cells: Vec<Cell> = Vec::new();
    let mut i: usize = 0;
    while i < spans.len()
        invariant
            i <= spans.len(),
            cells@ == styled(views(spans@).take(i as int)),
        decreases spans.len() - i,
    {
        let span = &spans[i];
        let color = resolve(span.red, span.green, span.blue);
        let text = chars_of(span.text.as_str());
        proof {
            assert(views(spans@).take(i + 1).drop_last() == views(spans@).take(i as int));
            assert(views(spans@).take(i + 1).last() == spans@[i as int]@);
        }
        push_text(&mut cells, &text, color as u8);
        i += 1;
    }
    proof {
        assert(views(spans@).take(spans.len() as int) == views(spans@));
    }
    if cells.len() <= row.len() {
        let from = cells.len();
        push_cells(&mut cells, row, from, row.len());
    }
    cells
}

} // verus!
