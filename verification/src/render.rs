//! The diff renderer: composes the line differ and the syntax highlighter
//! into one HTML fragment in which every line carries both an
//! insert/delete/unchanged wrapper and the token markup of its content.
use vstd::prelude::*;
use crate::differ::all_texts;
use crate::differ::change_views;
use crate::differ::diff_lines;
use crate::differ::concat_texts;
use crate::differ::is_line_diff;
use crate::differ::lemma_diff_texts_full;
use crate::differ::plain_diff_html;
use crate::differ::plain_rows;
use crate::differ::ChangeLine;
use crate::differ::ChangeTag;
use crate::differ::ChangeView;
use crate::highlight::highlight_markup;
use crate::text::concat_all;
use crate::text::lemma_split_of_concat;
use crate::text::text_closed;
use crate::text::views_of;

verus! {

/// One rendered diff line: the change wrapper around the line's token
/// markup.
pub open spec fn diff_row(tag: ChangeTag, markup: Seq<char>) -> Seq<char> {
    match tag {
        ChangeTag::Delete => "<span class=\"delete\">"@ + markup + "</span>\n"@,
        ChangeTag::Insert => "<span class=\"insert\">"@ + markup + "</span>\n"@,
        ChangeTag::Equal => markup.push('\n'),
    }
}

/// All rendered diff lines, change tags zipped with markup rows.
pub open spec fn diff_rows(cs: Seq<ChangeView>, ms: Seq<Seq<char>>) -> Seq<char>
    recommends
        cs.len() == ms.len(),
    decreases cs.len(),
{
    if cs.len() == 0 {
        Seq::empty()
    } else {
        diff_rows(cs.drop_last(), ms.drop_last()) + diff_row(cs.last().tag, ms.last())
    }
}

/// The rendered fragment for a change sequence: highlighted rows when the
/// markup aligns line for line with the changes, the plain span-wrapped
/// rows otherwise.
pub open spec fn rendered_diff(cs: Seq<ChangeView>, lang: Seq<char>) -> Seq<char> {
    let ms = highlight_markup(concat_all(all_texts(cs)), lang);
    if ms.len() == cs.len() {
        "<pre class=\"highlight\">\n"@ + diff_rows(cs, ms) + "</pre>\n"@
    } else {
        "<pre class=\"highlight\">\n"@ + plain_diff_html(cs) + "</pre>\n"@
    }
}

/// Renders the two-file diff view: diffs the texts line by line, syntax
/// highlights the union of both, and wraps each highlighted line in its
/// change marker. A missing side yields the empty fragment, so a page
/// without a predecessor file simply shows no diff panel.
pub fn diff_and_highlight(old_text: &Option<String>, new_text: &Option<String>, lang: &str) -> (r:
    String)
    ensures
        (old_text is None || new_text is None) ==> r@ == Seq::<char>::empty(),
        old_text matches Some(o) ==> new_text matches Some(n) ==> exists|cs: Seq<ChangeView>|
            {
                &&& #[trigger] is_line_diff(cs, o@, n@)
                &&& (o@ == n@ ==> forall|i: int|
                    0 <= i < cs.len() ==> (#[trigger] cs[i]).tag is Equal)
                &&& r@ == rendered_diff(cs, lang@)
                &&& (text_closed(o@) && text_closed(n@)) ==> highlight_markup(
                    concat_all(all_texts(cs)),
                    lang@,
                ).len() == cs.len()
            },
{
    match (old_text, new_text) {
        (Some(o), Some(n)) => {
            let changes = diff_lines(o.as_str(), n.as_str());
            let ghost cs = change_views(changes@);
            let full_content = concat_texts(&changes);
            let markup = crate::highlight::highlight_text_lines(full_content.as_str(), lang);
            let ghost ms = views_of(markup@);
            proof {
                if text_closed(o@) && text_closed(n@) {
                    lemma_diff_texts_full(cs, o@, n@);
                    lemma_split_of_concat(all_texts(cs));
                }
            }
            let mut out: String = String::new();
            out.append("<pre class=\"highlight\">\n");
            if markup.len() == changes.len() {
                let mut i: usize = 0;
                while i < changes.len()
                    invariant
                        i <= changes@.len(),
                        cs == change_views(changes@),
                        cs.len() == changes@.len(),
                        ms == views_of(markup@),
                        ms.len() == cs.len(),
                        out@ == "<pre class=\"highlight\">\n"@ + diff_rows(
                            cs.subrange(0, i as int),
                            ms.subrange(0, i as int),
                        ),
                    decreases changes@.len() - i,
                {
                    let c: &ChangeLine = &changes[i];
                    let row: &String = &markup[i];
                    proof {
                        assert(cs[i as int] == c@);
                        assert(ms[i as int] == row@);
                    }
                    match c.tag {
                        ChangeTag::Delete => {
                            out.append("<span class=\"delete\">");
                            out.append(row.as_str());
                            out.append("</span>\n");
                        },
                        ChangeTag::Insert => {
                            out.append("<span class=\"insert\">");
                            out.append(row.as_str());
                            out.append("</span>\n");
                        },
                        ChangeTag::Equal => {
                            out.append(row.as_str());
                            out.push('\n');
                        },
                    }
                    i = i + 1;
                    proof {
                        let cpre = cs.subrange(0, i - 1);
                        let cnow = cs.subrange(0, i as int);
                        let mpre = ms.subrange(0, i - 1);
                        let mnow = ms.subrange(0, i as int);
                        assert(cnow.drop_last() =~= cpre);
                        assert(mnow.drop_last() =~= mpre);
                        assert(cnow.last() == cs[i - 1]);
                        assert(mnow.last() == ms[i - 1]);
                        assert(out@ =~= "<pre class=\"highlight\">\n"@ + diff_rows(cnow, mnow));
                    }
                }
                proof {
                    assert(cs.subrange(0, cs.len() as int) =~= cs);
                    assert(ms.subrange(0, ms.len() as int) =~= ms);
                }
            } else {
                let plain = plain_rows(&changes);
                out.append(plain.as_str());
            }
            out.append("</pre>\n");
            proof {
                assert(is_line_diff(cs, o@, n@));
                assert(out@ == rendered_diff(cs, lang@));
            }
            out
        },
        _ => String::new(),
    }
}

} // verus!
