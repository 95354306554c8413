//! The line differ: classifies every line of two texts as unchanged,
//! inserted or deleted, so that either input can be reconstructed from the
//! tagged lines.
use vstd::prelude::*;
use crate::text::concat_all;
use crate::text::full_line;
use crate::text::lemma_split_concat;
use crate::text::lemma_split_shape;
use crate::text::split_lines;
use crate::text::split_lines_spec;
use crate::text::str_eq;
use crate::text::text_closed;
use crate::text::views_of;

verus! {

/// How one line of the union of both inputs relates them.
#[derive(PartialEq, Eq, Structural, Clone, Copy, Debug)]
pub enum ChangeTag {
    Equal,
    Delete,
    Insert,
}

/// One tagged line; the text keeps its trailing newline.
#[derive(Debug, PartialEq, Eq)]
pub struct ChangeLine {
    pub tag: ChangeTag,
    pub text: String,
}

/// The mathematical content of a [`ChangeLine`].
pub struct ChangeView {
    pub tag: ChangeTag,
    pub text: Seq<char>,
}

impl View for ChangeLine {
    type V = ChangeView;

    open spec fn view(&self) -> ChangeView {
        ChangeView { tag: self.tag, text: self.text@ }
    }
}

/// The views of a sequence of tagged lines.
pub open spec fn change_views(cs: Seq<ChangeLine>) -> Seq<ChangeView> {
    cs.map_values(|c: ChangeLine| c@)
}

/// The texts of the changes drawn from the old input, in order.
pub open spec fn old_texts(cs: Seq<ChangeView>) -> Seq<Seq<char>>
    decreases cs.len(),
{
    if cs.len() == 0 {
        Seq::empty()
    } else {
        let rest = old_texts(cs.drop_last());
        if cs.last().tag is Insert {
            rest
        } else {
            rest.push(cs.last().text)
        }
    }
}

/// The texts of the changes drawn from the new input, in order.
pub open spec fn new_texts(cs: Seq<ChangeView>) -> Seq<Seq<char>>
    decreases cs.len(),
{
    if cs.len() == 0 {
        Seq::empty()
    } else {
        let rest = new_texts(cs.drop_last());
        if cs.last().tag is Delete {
            rest
        } else {
            rest.push(cs.last().text)
        }
    }
}

/// The texts of all changes, in order.
pub open spec fn all_texts(cs: Seq<ChangeView>) -> Seq<Seq<char>> {
    cs.map_values(|c: ChangeView| c.text)
}

/// The changes form a full-content line diff of the two texts: the lines not
/// inserted are exactly the old text's lines and the lines not deleted are
/// exactly the new text's lines.
pub open spec fn is_line_diff(cs: Seq<ChangeView>, old: Seq<char>, new: Seq<char>) -> bool {
    &&& old_texts(cs) == split_lines_spec(old)
    &&& new_texts(cs) == split_lines_spec(new)
}

/// Relies on similar::TextDiff::from_slices and TextDiff::iter_all_changes:
/// the captured diff operations cover both input sequences completely and in
/// order, so the changes not tagged Insert hold exactly the old elements and
/// the changes not tagged Delete hold exactly the new elements, and a
/// replaced range yields its deletions before its insertions.
#[verifier::external_body]
fn diff_line_changes(old_lines: &Vec<String>, new_lines: &Vec<String>) -> (r: Vec<ChangeLine>)
    ensures
        old_texts(change_views(r@)) == views_of(old_lines@),
        new_texts(change_views(r@)) == views_of(new_lines@),
{
    let old_refs: Vec<&str> = old_lines.iter().map(|s| s.as_str()).collect();
    let new_refs: Vec<&str> = new_lines.iter().map(|s| s.as_str()).collect();
    let diff = similar::TextDiff::from_slices(&old_refs, &new_refs);
    diff.iter_all_changes().map(|ch| ChangeLine {
        tag: match ch.tag() {
            similar::ChangeTag::Equal => ChangeTag::Equal,
            similar::ChangeTag::Delete => ChangeTag::Delete,
            similar::ChangeTag::Insert => ChangeTag::Insert,
        },
        text: ch.value().to_string(),
    }).collect()
}

/// Computes the line-level edit script between two texts.
///
/// Every line of the old text appears exactly once among the changes not
/// tagged Insert, and every line of the new text exactly once among those
/// not tagged Delete, both in input order; identical inputs yield only
/// Equal lines.
pub fn diff_lines(old_text: &str, new_text: &str) -> (r: Vec<ChangeLine>)
    ensures
        is_line_diff(change_views(r@), old_text@, new_text@),
        concat_all(old_texts(change_views(r@))) == old_text@,
        concat_all(new_texts(change_views(r@))) == new_text@,
        old_text@ == new_text@ ==> forall|i: int|
            0 <= i < r@.len() ==> (#[trigger] change_views(r@)[i]).tag is Equal,
{
    let old_lines = split_lines(old_text);
    let r: Vec<ChangeLine> = if str_eq(old_text, new_text) {
        let mut out: Vec<ChangeLine> = Vec::new();
        let mut i: usize = 0;
        while i < old_lines.len()
            invariant
                i <= old_lines@.len(),
                out@.len() == i,
                forall|k: int| 0 <= k < i ==> (#[trigger] change_views(out@)[k]).tag is Equal,
                old_texts(change_views(out@)) == views_of(old_lines@).subrange(0, i as int),
                new_texts(change_views(out@)) == views_of(old_lines@).subrange(0, i as int),
            decreases old_lines@.len() - i,
        {
            let ghost old_out = out@;
            let line: String = old_lines[i].clone();
            out.push(ChangeLine { tag: ChangeTag::Equal, text: line });
            i = i + 1;
            proof {
                let ws = change_views(old_out);
                let ws2 = change_views(out@);
                assert(ws2 =~= ws.push(out@.last()@));
                assert(ws2.drop_last() =~= ws);
                assert(old_texts(ws2) =~= views_of(old_lines@).subrange(0, i as int));
                assert(new_texts(ws2) =~= views_of(old_lines@).subrange(0, i as int));
            }
        }
        proof {
            assert(views_of(old_lines@).subrange(0, old_lines@.len() as int) =~= views_of(
                old_lines@,
            ));
        }
        out
    } else {
        let new_lines = split_lines(new_text);
        diff_line_changes(&old_lines, &new_lines)
    };
    proof {
        lemma_split_concat(old_text@);
        lemma_split_concat(new_text@);
    }
    r
}

/// When both texts end cleanly, every change's text is one complete line.
pub proof fn lemma_diff_texts_full(cs: Seq<ChangeView>, old: Seq<char>, new: Seq<char>)
    requires
        is_line_diff(cs, old, new),
        text_closed(old),
        text_closed(new),
    ensures
        forall|i: int| 0 <= i < cs.len() ==> full_line(#[trigger] cs[i].text),
{
    lemma_split_shape(old);
    lemma_split_shape(new);
    assert(forall|i: int|
        0 <= i < old_texts(cs).len() ==> full_line(#[trigger] old_texts(cs)[i]));
    assert(forall|i: int|
        0 <= i < new_texts(cs).len() ==> full_line(#[trigger] new_texts(cs)[i]));
    lemma_texts_full_rec(cs, old_texts(cs), new_texts(cs));
}

proof fn lemma_texts_full_rec(cs: Seq<ChangeView>, os: Seq<Seq<char>>, ns: Seq<Seq<char>>)
    requires
        old_texts(cs) == os,
        new_texts(cs) == ns,
        forall|i: int| 0 <= i < os.len() ==> full_line(#[trigger] os[i]),
        forall|i: int| 0 <= i < ns.len() ==> full_line(#[trigger] ns[i]),
    ensures
        forall|i: int| 0 <= i < cs.len() ==> full_line(#[trigger] cs[i].text),
    decreases cs.len(),
{
    if cs.len() == 0 {
    } else {
        let front = cs.drop_last();
        let ofront = old_texts(front);
        let nfront = new_texts(front);
        assert forall|i: int| 0 <= i < ofront.len() implies full_line(#[trigger] ofront[i]) by {
            if cs.last().tag is Insert {
                assert(os == ofront);
            } else {
                assert(os == ofront.push(cs.last().text));
            }
            assert(ofront[i] == os[i]);
            assert(full_line(os[i]));
        }
        assert forall|i: int| 0 <= i < nfront.len() implies full_line(#[trigger] nfront[i]) by {
            if cs.last().tag is Delete {
                assert(ns == nfront);
            } else {
                assert(ns == nfront.push(cs.last().text));
            }
            assert(nfront[i] == ns[i]);
            assert(full_line(ns[i]));
        }
        lemma_texts_full_rec(front, ofront, nfront);
        assert(full_line(cs.last().text)) by {
            if cs.last().tag is Insert {
                assert(cs.last().text == ns.last());
            } else {
                assert(cs.last().text == os.last());
            }
        }
        assert(forall|i: int|
            0 <= i < cs.len() - 1 ==> #[trigger] cs[i].text == front[i].text);
    }
}

/// The markup for one change line in the plain, unhighlighted diff view.
pub open spec fn plain_row(c: ChangeView) -> Seq<char> {
    match c.tag {
        ChangeTag::Delete => "<span class=\"delete\">"@ + c.text + "</span>"@,
        ChangeTag::Insert => "<span class=\"insert\">"@ + c.text + "</span>"@,
        ChangeTag::Equal => c.text,
    }
}

/// The plain diff view: each deleted or inserted line wrapped in a span,
/// unchanged lines as they are.
pub open spec fn plain_diff_html(cs: Seq<ChangeView>) -> Seq<char>
    decreases cs.len(),
{
    if cs.len() == 0 {
        Seq::empty()
    } else {
        plain_diff_html(cs.drop_last()) + plain_row(cs.last())
    }
}

/// Concatenates the texts of all changes, reconstructing the union of both
/// inputs.
pub fn concat_texts(changes: &Vec<ChangeLine>) -> (r: String)
    ensures
        r@ == concat_all(all_texts(change_views(changes@))),
{
    let ghost cs = change_views(changes@);
    let mut full_content: String = String::new();
    let mut i: usize = 0;
    while i < changes.len()
        invariant
            i <= changes@.len(),
            cs == change_views(changes@),
            cs.len() == changes@.len(),
            full_content@ == concat_all(all_texts(cs.subrange(0, i as int))),
        decreases changes@.len() - i,
    {
        let c: &ChangeLine = &changes[i];
        proof {
            assert(cs[i as int] == c@);
        }
        full_content.append(c.text.as_str());
        i = i + 1;
        proof {
            let pre = cs.subrange(0, i - 1);
            let now = cs.subrange(0, i as int);
            assert(all_texts(now).drop_last() =~= all_texts(pre));
            assert(all_texts(now).last() == cs[i - 1].text);
            assert(full_content@ =~= concat_all(all_texts(now)));
        }
    }
    proof {
        assert(cs.subrange(0, cs.len() as int) =~= cs);
    }
    full_content
}

/// Renders the plain, unhighlighted diff markup for a change sequence.
pub fn plain_rows(changes: &Vec<ChangeLine>) -> (r: String)
    ensures
        r@ == plain_diff_html(change_views(changes@)),
{
    let ghost cs = change_views(changes@);
    let mut diffed_html: String = String::new();
    let mut i: usize = 0;
    while i < changes.len()
        invariant
            i <= changes@.len(),
            cs == change_views(changes@),
            cs.len() == changes@.len(),
            diffed_html@ == plain_diff_html(cs.subrange(0, i as int)),
        decreases changes@.len() - i,
    {
        let c: &ChangeLine = &changes[i];
        proof {
            assert(cs[i as int] == c@);
        }
        match c.tag {
            ChangeTag::Delete => {
                diffed_html.append("<span class=\"delete\">");
                diffed_html.append(c.text.as_str());
                diffed_html.append("</span>");
            },
            ChangeTag::Insert => {
                diffed_html.append("<span class=\"insert\">");
                diffed_html.append(c.text.as_str());
                diffed_html.append("</span>");
            },
            ChangeTag::Equal => {
                diffed_html.append(c.text.as_str());
            },
        }
        i = i + 1;
        proof {
            let pre = cs.subrange(0, i - 1);
            let now = cs.subrange(0, i as int);
            assert(now.drop_last() =~= pre);
            assert(now.last() == cs[i - 1]);
            assert(diffed_html@ =~= plain_diff_html(now));
        }
    }
    proof {
        assert(cs.subrange(0, cs.len() as int) =~= cs);
    }
    diffed_html
}

/// Diffs two texts and returns the change tags, the concatenation of all
/// tagged lines, and the plain span-wrapped diff markup.
pub fn diff(old_text: &str, new_text: &str) -> (r: (Vec<ChangeTag>, String, String))
    ensures
        exists|cs: Seq<ChangeView>|
            {
                &&& #[trigger] is_line_diff(cs, old_text@, new_text@)
                &&& (old_text@ == new_text@ ==> forall|i: int|
                    0 <= i < cs.len() ==> (#[trigger] cs[i]).tag is Equal)
                &&& r.0@ == cs.map_values(|c: ChangeView| c.tag)
                &&& r.1@ == concat_all(all_texts(cs))
                &&& r.2@ == plain_diff_html(cs)
            },
{
    let changes = diff_lines(old_text, new_text);
    let ghost cs = change_views(changes@);
    let full_content = concat_texts(&changes);
    let diffed_html = plain_rows(&changes);
    let mut tags: Vec<ChangeTag> = Vec::new();
    let mut i: usize = 0;
    while i < changes.len()
        invariant
            i <= changes@.len(),
            cs == change_views(changes@),
            cs.len() == changes@.len(),
            tags@ == cs.subrange(0, i as int).map_values(|c: ChangeView| c.tag),
        decreases changes@.len() - i,
    {
        let c: &ChangeLine = &changes[i];
        proof {
            assert(cs[i as int] == c@);
        }
        match c.tag {
            ChangeTag::Delete => { tags.push(ChangeTag::Delete) },
            ChangeTag::Insert => { tags.push(ChangeTag::Insert) },
            ChangeTag::Equal => { tags.push(ChangeTag::Equal) },
        }
        i = i + 1;
        proof {
            let now = cs.subrange(0, i as int);
            assert(tags@ =~= now.map_values(|c: ChangeView| c.tag));
        }
    }
    proof {
        assert(cs.subrange(0, cs.len() as int) =~= cs);
    }
    (tags, full_content, diffed_html)
}

} // verus!
