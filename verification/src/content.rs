//! Per-document metadata for the template layer: the info record of each
//! content file, the collections that group documents by name, and the
//! escaping rule that leaves marked fragments untouched.
use vstd::prelude::*;
use crate::text::contains_sub;
use crate::text::contains_sub_spec;
use crate::text::str_eq;
use crate::text::views_of;

verus! {

/// One loaded content document: its file identity, its front-matter
/// fields, and the collections it claims membership of.
pub struct ContentMeta {
    pub file_name: String,
    pub file_path: String,
    pub title: String,
    pub description: String,
    pub template: String,
    pub collections: Vec<String>,
}

/// The mathematical content of a [`ContentMeta`].
pub struct ContentMetaView {
    pub file_name: Seq<char>,
    pub file_path: Seq<char>,
    pub title: Seq<char>,
    pub description: Seq<char>,
    pub template: Seq<char>,
    pub collections: Seq<Seq<char>>,
}

impl View for ContentMeta {
    type V = ContentMetaView;

    open spec fn view(&self) -> ContentMetaView {
        ContentMetaView {
            file_name: self.file_name@,
            file_path: self.file_path@,
            title: self.title@,
            description: self.description@,
            template: self.template@,
            collections: views_of(self.collections@),
        }
    }
}

/// The views of a sequence of documents.
pub open spec fn meta_views(cs: Seq<ContentMeta>) -> Seq<ContentMetaView> {
    cs.map_values(|c: ContentMeta| c@)
}

/// The record the template layer sees for one document.
#[derive(Debug, PartialEq, Eq)]
pub struct ContentInfo {
    pub file_name: String,
    pub file_name_no_ext: String,
    pub file_path: String,
    pub title: String,
    pub description: String,
    pub url: String,
}

/// The mathematical content of a [`ContentInfo`].
pub struct ContentInfoView {
    pub file_name: Seq<char>,
    pub file_name_no_ext: Seq<char>,
    pub file_path: Seq<char>,
    pub title: Seq<char>,
    pub description: Seq<char>,
    pub url: Seq<char>,
}

impl View for ContentInfo {
    type V = ContentInfoView;

    open spec fn view(&self) -> ContentInfoView {
        ContentInfoView {
            file_name: self.file_name@,
            file_name_no_ext: self.file_name_no_ext@,
            file_path: self.file_path@,
            title: self.title@,
            description: self.description@,
            url: self.url@,
        }
    }
}

/// The prefix of a path up to the last dot of its final component, when
/// that component has one.
pub open spec fn dot_cut(p: Seq<char>) -> Option<Seq<char>>
    decreases p.len(),
{
    if p.len() == 0 {
        None
    } else if p.last() == '.' {
        Some(p.drop_last())
    } else if p.last() == '/' {
        None
    } else {
        dot_cut(p.drop_last())
    }
}

/// A path without the extension of its final component.
pub open spec fn strip_ext(p: Seq<char>) -> Seq<char> {
    match dot_cut(p) {
        Some(q) => q,
        None => p,
    }
}

/// Backslashes turned into forward slashes.
pub open spec fn slashes_fixed(p: Seq<char>) -> Seq<char> {
    p.map_values(|c: char| if c == '\\' { '/' } else { c })
}

/// The info record a document yields: its names, its front-matter fields,
/// and its page URL, which is its path with the extension replaced by
/// `.html` and separators normalised.
pub open spec fn info_of(c: ContentMetaView) -> ContentInfoView {
    ContentInfoView {
        file_name: c.file_name,
        file_name_no_ext: strip_ext(c.file_name),
        file_path: c.file_path,
        title: c.title,
        description: c.description,
        url: slashes_fixed(strip_ext(c.file_path) + ".html"@),
    }
}

/// Drops the extension of a path's final component.
pub fn strip_ext_part(p: &str) -> (r: String)
    ensures
        r@ == strip_ext(p@),
{
    let n: usize = p.unicode_len();
    let mut i: usize = n;
    proof {
        assert(p@.subrange(0, n as int) =~= p@);
    }
    while i > 0 && p.get_char(i - 1) != '.' && p.get_char(i - 1) != '/'
        invariant
            i <= n,
            n == p@.len(),
            dot_cut(p@) == dot_cut(p@.subrange(0, i as int)),
        decreases i,
    {
        proof {
            let cur = p@.subrange(0, i as int);
            assert(cur.drop_last() =~= p@.subrange(0, i - 1));
            assert(cur.last() == p@[i - 1]);
        }
        i = i - 1;
    }
    if i > 0 && p.get_char(i - 1) == '.' {
        proof {
            let cur = p@.subrange(0, i as int);
            assert(cur.last() == '.');
            assert(cur.drop_last() =~= p@.subrange(0, i - 1));
            assert(strip_ext(p@) == p@.subrange(0, i - 1));
        }
        let s = p.substring_char(0, i - 1);
        String::from_str(s)
    } else {
        proof {
            if i == 0 {
                assert(dot_cut(p@.subrange(0, 0)) is None);
            } else {
                let cur = p@.subrange(0, i as int);
                assert(cur.last() == '/');
                assert(dot_cut(cur) is None);
            }
            assert(strip_ext(p@) == p@);
        }
        let s = p.substring_char(0, n);
        proof {
            assert(p@.subrange(0, n as int) =~= p@);
        }
        String::from_str(s)
    }
}

/// Turns every backslash into a forward slash.
pub fn fix_slashes(p: &str) -> (r: String)
    ensures
        r@ == slashes_fixed(p@),
{
    let n: usize = p.unicode_len();
    let mut r: String = String::new();
    let mut i: usize = 0;
    while i < n
        invariant
            i <= n,
            n == p@.len(),
            r@ == slashes_fixed(p@.subrange(0, i as int)),
        decreases n - i,
    {
        let c = p.get_char(i);
        if c == '\\' {
            r.push('/');
        } else {
            r.push(c);
        }
        i = i + 1;
        proof {
            assert(p@.subrange(0, i as int) =~= p@.subrange(0, i - 1).push(c));
            assert(r@ =~= slashes_fixed(p@.subrange(0, i as int)));
        }
    }
    proof {
        assert(p@.subrange(0, n as int) =~= p@);
    }
    r
}

/// Builds the template-layer record of one document.
pub fn get_content_info(content: &ContentMeta) -> (r: ContentInfo)
    ensures
        r@ == info_of(content@),
{
    let mut url_base = strip_ext_part(content.file_path.as_str());
    url_base.append(".html");
    let url = fix_slashes(url_base.as_str());
    ContentInfo {
        file_name: content.file_name.clone(),
        file_name_no_ext: strip_ext_part(content.file_name.as_str()),
        file_path: content.file_path.clone(),
        title: content.title.clone(),
        description: content.description.clone(),
        url,
    }
}

/// Duplicates an info record.
fn clone_info(c: &ContentInfo) -> (r: ContentInfo)
    ensures
        r == *c,
{
    ContentInfo {
        file_name: c.file_name.clone(),
        file_name_no_ext: c.file_name_no_ext.clone(),
        file_path: c.file_path.clone(),
        title: c.title.clone(),
        description: c.description.clone(),
        url: c.url.clone(),
    }
}

/// Builds the record of every document, keyed by file name, in document
/// order.
pub fn get_content_infos(contents: &Vec<ContentMeta>) -> (r: Vec<(String, ContentInfo)>)
    ensures
        r@.len() == contents@.len(),
        forall|i: int|
            0 <= i < r@.len() ==> (#[trigger] r@[i]).0@ == contents@[i]@.file_name && r@[i].1@
                == info_of(contents@[i]@),
{
    let mut r: Vec<(String, ContentInfo)> = Vec::new();
    let mut i: usize = 0;
    while i < contents.len()
        invariant
            i <= contents@.len(),
            r@.len() == i,
            forall|k: int|
                0 <= k < i ==> (#[trigger] r@[k]).0@ == contents@[k]@.file_name && r@[k].1@
                    == info_of(contents@[k]@),
        decreases contents@.len() - i,
    {
        let info = get_content_info(&contents[i]);
        r.push((contents[i].file_name.clone(), info));
        i = i + 1;
    }
    r
}

/// The groups of documents by collection name.
pub open spec fn group_views(gs: Seq<(String, Vec<ContentInfo>)>) -> Seq<
    (Seq<char>, Seq<ContentInfoView>),
> {
    gs.map_values(
        |p: (String, Vec<ContentInfo>)| (p.0@, p.1@.map_values(|c: ContentInfo| c@)),
    )
}

/// The first group with this name, or the group count when none has it.
pub open spec fn find_key(gs: Seq<(Seq<char>, Seq<ContentInfoView>)>, name: Seq<char>) -> int
    decreases gs.len(),
{
    if gs.len() == 0 {
        0
    } else if gs[0].0 == name {
        0
    } else {
        1 + find_key(gs.drop_first(), name)
    }
}

proof fn lemma_find_key(gs: Seq<(Seq<char>, Seq<ContentInfoView>)>, name: Seq<char>, k: int)
    requires
        0 <= k <= gs.len(),
        forall|m: int| 0 <= m < k ==> (#[trigger] gs[m]).0 != name,
        k < gs.len() ==> gs[k].0 == name,
    ensures
        find_key(gs, name) == k,
    decreases k,
{
    if gs.len() == 0 {
    } else if k == 0 {
    } else {
        assert(gs[0].0 != name);
        let rest = gs.drop_first();
        assert(forall|m: int| 0 <= m < k - 1 ==> (#[trigger] rest[m]).0 == gs[m + 1].0);
        lemma_find_key(rest, name, k - 1);
    }
}

/// Adds one document to one named collection: into the first group with
/// that name, or into a fresh group at the end.
pub open spec fn add_to(
    gs: Seq<(Seq<char>, Seq<ContentInfoView>)>,
    name: Seq<char>,
    info: ContentInfoView,
) -> Seq<(Seq<char>, Seq<ContentInfoView>)> {
    let k = find_key(gs, name);
    if k < gs.len() {
        gs.update(k, (gs[k].0, gs[k].1.push(info)))
    } else {
        gs.push((name, seq![info]))
    }
}

/// Adds one document to every collection it names, in order.
pub open spec fn collect_names(
    gs: Seq<(Seq<char>, Seq<ContentInfoView>)>,
    names: Seq<Seq<char>>,
    info: ContentInfoView,
) -> Seq<(Seq<char>, Seq<ContentInfoView>)>
    decreases names.len(),
{
    if names.len() == 0 {
        gs
    } else {
        add_to(collect_names(gs, names.drop_last(), info), names.last(), info)
    }
}

/// Groups all documents by collection name, documents in document order
/// within each group.
pub open spec fn collect_all(
    gs: Seq<(Seq<char>, Seq<ContentInfoView>)>,
    cs: Seq<ContentMetaView>,
) -> Seq<(Seq<char>, Seq<ContentInfoView>)>
    decreases cs.len(),
{
    if cs.len() == 0 {
        gs
    } else {
        collect_names(collect_all(gs, cs.drop_last()), cs.last().collections, info_of(cs.last()))
    }
}

/// Groups the documents by the collections their front matter names:
/// groups appear in first-mention order and each group lists its documents
/// in document order, once per mention.
pub fn get_collections(contents: &Vec<ContentMeta>) -> (r: Vec<(String, Vec<ContentInfo>)>)
    ensures
        group_views(r@) == collect_all(Seq::empty(), meta_views(contents@)),
{
    let ghost ms = meta_views(contents@);
    let mut groups: Vec<(String, Vec<ContentInfo>)> = Vec::new();
    let mut i: usize = 0;
    proof {
        assert(group_views(groups@) =~= Seq::<(Seq<char>, Seq<ContentInfoView>)>::empty());
    }
    while i < contents.len()
        invariant
            i <= contents@.len(),
            ms == meta_views(contents@),
            ms.len() == contents@.len(),
            group_views(groups@) == collect_all(Seq::empty(), ms.subrange(0, i as int)),
        decreases contents@.len() - i,
    {
        let content: &ContentMeta = &contents[i];
        proof {
            assert(ms[i as int] == content@);
        }
        let info = get_content_info(content);
        let ghost entered = group_views(groups@);
        let mut j: usize = 0;
        while j < content.collections.len()
            invariant
                j <= content.collections@.len(),
                info@ == info_of(content@),
                content@.collections.len() == content.collections@.len(),
                content@ == ms[i as int],
                i < ms.len(),
                group_views(groups@) == collect_names(
                    entered,
                    content@.collections.subrange(0, j as int),
                    info@,
                ),
            decreases content.collections@.len() - j,
        {
            let name: &String = &content.collections[j];
            proof {
                assert(content@.collections[j as int] == name@);
            }
            let ghost gv = group_views(groups@);
            let mut k: usize = 0;
            let glen: usize = groups.len();
            while k < glen && !str_eq(groups[k].0.as_str(), name.as_str())
                invariant
                    k <= glen,
                    glen == groups@.len(),
                    gv == group_views(groups@),
                    gv.len() == groups@.len(),
                    forall|m: int| 0 <= m < k ==> (#[trigger] gv[m]).0 != name@,
                decreases glen - k,
            {
                proof {
                    assert(gv[k as int].0 == groups@[k as int].0@);
                }
                k = k + 1;
            }
            proof {
                if k < glen {
                    assert(gv[k as int].0 == groups@[k as int].0@);
                }
                lemma_find_key(gv, name@, k as int);
            }
            if k < glen {
                let ghost gs_old = groups@;
                let pair = groups.remove(k);
                let gname = pair.0;
                let mut gvec = pair.1;
                gvec.push(clone_info(&info));
                let ghost np = (gname, gvec);
                groups.insert(k, (gname, gvec));
                proof {
                    assert(groups@ =~= gs_old.update(k as int, np));
                    assert(np.0@ == gv[k as int].0);
                    assert(np.1@.map_values(|c: ContentInfo| c@) =~= gv[k as int].1.push(info@));
                    assert(group_views(groups@) =~~= add_to(gv, name@, info@));
                }
            } else {
                let mut members: Vec<ContentInfo> = Vec::new();
                members.push(clone_info(&info));
                groups.push((name.clone(), members));
                proof {
                    assert(group_views(groups@) =~~= add_to(gv, name@, info@));
                }
            }
            j = j + 1;
            proof {
                let pre = content@.collections.subrange(0, j - 1);
                let now = content@.collections.subrange(0, j as int);
                assert(now.drop_last() =~= pre);
                assert(now.last() == content@.collections[j - 1]);
                assert(group_views(groups@) == collect_names(entered, now, info@));
            }
        }
        i = i + 1;
        proof {
            let pre = ms.subrange(0, i - 1);
            let now = ms.subrange(0, i as int);
            assert(now.drop_last() =~= pre);
            assert(now.last() == ms[i - 1]);
            assert(content@.collections.subrange(
                0,
                content@.collections.len() as int,
            ) =~= content@.collections);
            assert(group_views(groups@) == collect_all(Seq::empty(), now));
        }
    }
    proof {
        assert(ms.subrange(0, ms.len() as int) =~= ms);
    }
    groups
}

// ---------- escaping ----------

/// The marker a fragment carries so the template layer passes it through
/// without escaping.
pub open spec fn no_escape_marker() -> Seq<char> {
    "<!-- NO_ESCAPE -->"@
}

/// What one character escapes to in HTML.
pub open spec fn escape_char(c: char) -> Seq<char> {
    if c == '<' {
        "&lt;"@
    } else if c == '>' {
        "&gt;"@
    } else if c == '"' {
        "&quot;"@
    } else if c == '&' {
        "&amp;"@
    } else if c == '\'' {
        "&#x27;"@
    } else if c == '`' {
        "&#x60;"@
    } else if c == '=' {
        "&#x3D;"@
    } else {
        seq![c]
    }
}

/// The HTML escape of a whole string, character by character.
pub open spec fn escape_html_spec(s: Seq<char>) -> Seq<char>
    decreases s.len(),
{
    if s.len() == 0 {
        Seq::empty()
    } else {
        escape_html_spec(s.drop_last()) + escape_char(s.last())
    }
}

/// Relies on handlebars::html_escape: each of the characters `<`, `>`,
/// `"`, `&`, `'`, `` ` `` and `=` becomes its HTML entity and every other
/// character stays itself.
#[verifier::external_body]
fn html_escape_str(data: &str) -> (r: String)
    ensures
        r@ == escape_html_spec(data@),
{
    handlebars::html_escape(data)
}

/// The template engine's escape rule: a fragment carrying the no-escape
/// marker passes through unchanged, anything else is HTML-escaped.
pub fn handlebars_escape(data: &str) -> (r: String)
    ensures
        contains_sub_spec(data@, no_escape_marker()) ==> r@ == data@,
        !contains_sub_spec(data@, no_escape_marker()) ==> r@ == escape_html_spec(data@),
{
    if contains_sub(data, "<!-- NO_ESCAPE -->") {
        String::from_str(data)
    } else {
        html_escape_str(data)
    }
}

/// Prefixes rendered HTML with the no-escape marker so the template layer
/// substitutes it verbatim.
pub fn mark_no_escape(html: &str) -> (r: String)
    ensures
        r@ == no_escape_marker() + seq!['\n'] + html@,
        contains_sub_spec(r@, no_escape_marker()),
{
    let mut r: String = String::new();
    r.append("<!-- NO_ESCAPE -->");
    r.append("\n");
    r.append(html);
    proof {
        reveal_strlit("\n");
        assert(r@ =~= no_escape_marker() + seq!['\n'] + html@);
        assert(r@.subrange(0, no_escape_marker().len() as int) =~= no_escape_marker());
        assert(crate::text::occurs_at(r@, no_escape_marker(), 0));
    }
    r
}

} // verus!
