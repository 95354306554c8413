//! The syntax highlighter: turns source text into per-line token markup
//! through syntect, under one fixed theme, falling back to plain text when
//! the language hint matches no known grammar.
use vstd::prelude::*;
use crate::text::split_lines_spec;
use crate::text::views_of;
use syntect::easy::HighlightLines;
use syntect::highlighting::ThemeSet;
use syntect::html::append_highlighted_html_for_styled_line;
use syntect::html::IncludeBackground;
use syntect::parsing::SyntaxSet;

verus! {

/// The token markup syntect produces for each line of `text` under the
/// grammar selected by `lang` and the fixed theme; a function of the
/// arguments alone.
pub uninterp spec fn highlight_markup(text: Seq<char>, lang: Seq<char>) -> Seq<Seq<char>>;

/// Relies on syntect: SyntaxSet::find_syntax_by_extension with the plain-text
/// fallback, HighlightLines::highlight_line and
/// append_highlighted_html_for_styled_line under the fixed InspiredGitHub
/// theme, one markup string per input line, deterministic in text and lang.
#[verifier::external_body]
pub(crate) fn highlight_text_lines(text: &str, lang: &str) -> (r: Vec<String>)
    ensures
        views_of(r@) == highlight_markup(text@, lang@),
        r@.len() == split_lines_spec(text@).len(),
{
    let ss = SyntaxSet::load_defaults_newlines();
    let ts = ThemeSet::load_defaults();
    let syntax = match ss.find_syntax_by_extension(lang) {
        Some(s) => s,
        None => ss.find_syntax_plain_text(),
    };
    let mut hl = HighlightLines::new(syntax, &ts.themes["InspiredGitHub"]);
    let mut out: Vec<String> = Vec::new();
    for line in text.lines() {
        let regions = hl.highlight_line(line, &ss).unwrap_or_default();
        let mut h = String::new();
        let _ = append_highlighted_html_for_styled_line(&regions[..], IncludeBackground::No, &mut h);
        out.push(h);
    }
    out
}

/// Markup rows joined with one newline after each row.
pub open spec fn joined_rows(ms: Seq<Seq<char>>) -> Seq<char>
    decreases ms.len(),
{
    if ms.len() == 0 {
        Seq::empty()
    } else {
        joined_rows(ms.drop_last()) + ms.last().push('\n')
    }
}

/// The highlighted block for a chunk of source text: one wrapper element
/// holding one styled line per input line.
pub open spec fn highlight_block_spec(text: Seq<char>, lang: Seq<char>) -> Seq<char> {
    "<pre class=\"highlight\">\n"@ + joined_rows(highlight_markup(text, lang)) + "</pre>\n"@
}

/// Highlights a chunk of source text, one styled line per input line inside
/// a single wrapper block.
pub fn highlight(text: &str, lang: &str) -> (r: String)
    ensures
        r@ == highlight_block_spec(text@, lang@),
{
    let lines = highlight_text_lines(text, lang);
    let ghost ms = views_of(lines@);
    let mut out: String = String::new();
    out.append("<pre class=\"highlight\">\n");
    let mut i: usize = 0;
    while i < lines.len()
        invariant
            i <= lines@.len(),
            ms == views_of(lines@),
            out@ == "<pre class=\"highlight\">\n"@ + joined_rows(ms.subrange(0, i as int)),
        decreases lines@.len() - i,
    {
        let row: &String = &lines[i];
        out.append(row.as_str());
        out.push('\n');
        i = i + 1;
        proof {
            let pre = ms.subrange(0, i - 1);
            let now = ms.subrange(0, i as int);
            assert(now.drop_last() =~= pre);
            assert(now.last() == ms[i - 1]);
            assert(out@ =~= "<pre class=\"highlight\">\n"@ + joined_rows(now));
        }
    }
    proof {
        assert(ms.subrange(0, ms.len() as int) =~= ms);
    }
    out.append("</pre>\n");
    out
}

} // verus!
