//! The table-of-contents builder: a stack of tree nodes that folds a flat,
//! ordered stream of headings into a nested tree rooted at the document
//! title, rejecting level-1 headings in body content except for the literal
//! sentinel heading `$`, which is skipped.
use vstd::prelude::*;
use crate::text::ascii_lower_char;
use crate::text::is_alnum;
use crate::text::is_alnum_char;
use crate::text::str_eq;
use crate::text::to_lower_char;

verus! {

/// One table-of-contents entry; children are in document order.
#[derive(Debug)]
pub struct TocItem {
    pub level: i8,
    pub text: String,
    pub url: String,
    pub children: Vec<TocItem>,
}

/// The mathematical shape of a [`TocItem`] tree.
pub struct TocNode {
    pub level: int,
    pub text: Seq<char>,
    pub url: Seq<char>,
    pub children: Seq<TocNode>,
}

/// The view of one entry as a tree of sequences.
pub open spec fn item_view(t: TocItem) -> TocNode
    decreases t,
{
    TocNode {
        level: t.level as int,
        text: t.text@,
        url: t.url@,
        children: items_view(t.children@),
    }
}

/// The views of a sequence of entries.
pub open spec fn items_view(s: Seq<TocItem>) -> Seq<TocNode>
    decreases s,
{
    if s.len() == 0 {
        Seq::empty()
    } else {
        items_view(s.drop_last()).push(item_view(s.last()))
    }
}

pub proof fn lemma_items_view_len(s: Seq<TocItem>)
    ensures
        items_view(s).len() == s.len(),
    decreases s,
{
    if s.len() > 0 {
        lemma_items_view_len(s.drop_last());
    }
}

pub proof fn lemma_items_view_index(s: Seq<TocItem>, i: int)
    requires
        0 <= i < s.len(),
    ensures
        items_view(s).len() == s.len(),
        items_view(s)[i] == item_view(s[i]),
    decreases s,
{
    lemma_items_view_len(s);
    if i < s.len() - 1 {
        lemma_items_view_index(s.drop_last(), i);
    }
}

/// A parent node with one more child appended.
pub open spec fn push_child(p: TocNode, c: TocNode) -> TocNode {
    TocNode { children: p.children.push(c), ..p }
}

/// Pops the top of the stack and appends it as the last child of the node
/// below it.
pub open spec fn fold_top(stack: Seq<TocNode>) -> Seq<TocNode>
    recommends
        stack.len() >= 2,
{
    stack.subrange(0, stack.len() - 2).push(push_child(stack[stack.len() - 2], stack.last()))
}

/// Folds the top of the stack `k` times.
pub open spec fn fold_n(stack: Seq<TocNode>, k: nat) -> Seq<TocNode>
    decreases k,
{
    if k == 0 {
        stack
    } else {
        fold_n(fold_top(stack), (k - 1) as nat)
    }
}

pub proof fn lemma_fold_n_snoc(stack: Seq<TocNode>, k: nat)
    ensures
        fold_n(stack, k + 1) == fold_top(fold_n(stack, k)),
    decreases k,
{
    if k == 0 {
        assert(fold_n(stack, 1) == fold_n(fold_top(stack), 0));
        assert(fold_n(fold_top(stack), 0) == fold_top(stack));
    } else {
        lemma_fold_n_snoc(fold_top(stack), (k - 1) as nat);
        assert(fold_n(stack, k + 1) == fold_n(fold_top(stack), k));
        assert(fold_n(stack, k) == fold_n(fold_top(stack), (k - 1) as nat));
    }
}

/// One heading step of the builder: a level deeper than the current one
/// opens a child context, an equal level replaces a sibling, a shallower
/// level folds the intervening contexts shut first.
pub open spec fn toc_step(stack: Seq<TocNode>, last: int, item: TocNode) -> (Seq<TocNode>, int) {
    if last < item.level {
        (stack.push(item), last + 1)
    } else if last == item.level {
        (fold_top(stack).push(item), last)
    } else {
        (fold_n(stack, (last - item.level + 1) as nat).push(item), item.level)
    }
}

/// Folding the whole stack into the root yields the finished tree.
pub open spec fn finalize_spec(stack: Seq<TocNode>) -> TocNode
    recommends
        stack.len() >= 1,
{
    fold_n(stack, (stack.len() - 1) as nat)[0]
}

// ---------- slugs ----------

/// Replaces the separator characters space, `/`, `\`, `.` and `,` by an
/// underscore.
pub open spec fn underscore_char(c: char) -> char {
    if c == ' ' || c == '/' || c == '\\' || c == '.' || c == ',' {
        '_'
    } else {
        c
    }
}

/// Drops leading underscores.
pub open spec fn trim_lead(s: Seq<char>) -> Seq<char>
    decreases s.len(),
{
    if s.len() > 0 && s[0] == '_' {
        trim_lead(s.drop_first())
    } else {
        s
    }
}

/// Drops trailing underscores.
pub open spec fn trim_trail(s: Seq<char>) -> Seq<char>
    decreases s.len(),
{
    if s.len() > 0 && s.last() == '_' {
        trim_trail(s.drop_last())
    } else {
        s
    }
}

/// A character the slug keeps after the final strip.
pub open spec fn slug_keep(c: char) -> bool {
    is_alnum_char(c) || c == '_'
}

/// Drops every character that is neither alphanumeric nor an underscore.
pub open spec fn strip_chars(s: Seq<char>) -> Seq<char>
    decreases s.len(),
{
    if s.len() == 0 {
        Seq::empty()
    } else {
        let rest = strip_chars(s.drop_last());
        if slug_keep(s.last()) {
            rest.push(s.last())
        } else {
            rest
        }
    }
}

/// The anchor id derived from a heading text: separators become
/// underscores, outer underscores are trimmed, ASCII letters are
/// lower-cased, and everything else that is not alphanumeric or an
/// underscore is stripped.
pub open spec fn slug_spec(s: Seq<char>) -> Seq<char> {
    strip_chars(
        trim_trail(trim_lead(s.map_values(|c: char| underscore_char(c)))).map_values(
            |c: char| ascii_lower_char(c),
        ),
    )
}

// ---------- the generator ----------

/// The synthetic root: the document title at level 1, anchored at the title.
pub open spec fn root_node(title: Seq<char>) -> TocNode {
    TocNode { level: 1, text: title, url: "#title"@, children: Seq::empty() }
}

/// The heading literally written as `$`, kept as a structural no-op.
pub open spec fn is_sentinel(text: Option<String>) -> bool {
    text matches Some(t) && t@ == "$"@
}

/// The view of an optional heading text.
pub open spec fn opt_view(o: Option<String>) -> Option<Seq<char>> {
    match o {
        Some(s) => Some(s@),
        None => None,
    }
}

/// The heading's text, empty when no text event followed it.
pub open spec fn opt_text_v(text: Option<Seq<char>>) -> Seq<char> {
    match text {
        Some(t) => t,
        None => Seq::empty(),
    }
}

/// The heading's text, empty when no text event followed it.
pub open spec fn opt_text(text: Option<String>) -> Seq<char> {
    opt_text_v(opt_view(text))
}

/// The fallback anchor id for a heading without extractable text, numbered
/// by the current stack depth.
pub open spec fn gen_id(depth: int) -> Seq<char> {
    "generated_toc_entry_"@ + seq![(48 + depth) as char]
}

/// The anchor id of a heading: the slug of its text, or the numbered
/// fallback when it has none.
pub open spec fn heading_id_v(text: Option<Seq<char>>, depth: int) -> Seq<char> {
    match text {
        Some(t) => slug_spec(t),
        None => gen_id(depth),
    }
}

/// The anchor id of a heading, over the executable text.
pub open spec fn heading_id(text: Option<String>, depth: int) -> Seq<char> {
    heading_id_v(opt_view(text), depth)
}

/// The fresh node a heading contributes before any children attach to it.
pub open spec fn heading_node_v(level: int, text: Option<Seq<char>>, depth: int) -> TocNode {
    TocNode {
        level,
        text: opt_text_v(text),
        url: seq!['#'] + heading_id_v(text, depth),
        children: Seq::empty(),
    }
}

/// The fresh node a heading contributes, over the executable text.
pub open spec fn heading_node(level: int, text: Option<String>, depth: int) -> TocNode {
    heading_node_v(level, opt_view(text), depth)
}

/// A level-1 heading in body content: the build must stop, naming the
/// offending heading and its computed anchor.
#[derive(Debug)]
pub struct TocError {
    pub text: String,
    pub url: String,
}

/// The stack-based accumulator that folds the flat heading stream into a
/// tree.
pub struct TocGenerator {
    pub children_stack: Vec<TocItem>,
    pub last_level: i8,
}

impl TocGenerator {
    /// The stack as a sequence of tree nodes.
    pub open spec fn stack_model(&self) -> Seq<TocNode> {
        items_view(self.children_stack@)
    }

    /// The construction invariant: the stack is never empty, its height
    /// equals the current level, and levels stay within the six heading
    /// levels.
    pub open spec fn wf(&self) -> bool {
        &&& self.children_stack@.len() == self.last_level as int
        &&& 1 <= self.last_level <= 6
    }

    /// Starts a table of contents holding only the synthetic root made from
    /// the document title.
    pub fn new(title: String) -> (r: TocGenerator)
        ensures
            r.wf(),
            r.last_level == 1,
            r.stack_model() == seq![root_node(title@)],
    {
        let mut children_stack: Vec<TocItem> = Vec::new();
        let mut url: String = String::new();
        url.append("#title");
        children_stack.push(TocItem { level: 1, text: title, url, children: Vec::new() });
        let r = TocGenerator { children_stack, last_level: 1 };
        proof {
            let s = r.children_stack@;
            assert(s.drop_last() =~= Seq::<TocItem>::empty());
            assert(items_view(s.drop_last()) =~= Seq::<TocNode>::empty());
            assert(item_view(s.last()).children =~= Seq::<TocNode>::empty());
            assert(item_view(s.last()).url =~= "#title"@);
            assert(r.stack_model() =~= seq![root_node(item_view(s.last()).text)]);
        }
        r
    }

    /// Computes the anchor id for a heading text.
    pub fn string_to_id(value: &str) -> (r: String)
        ensures
            r@ == slug_spec(value@),
    {
        let n: usize = value.unicode_len();
        let mut mapped: Vec<char> = Vec::new();
        let mut i: usize = 0;
        while i < n
            invariant
                i <= n,
                n == value@.len(),
                mapped@ == value@.subrange(0, i as int).map_values(|c: char| underscore_char(c)),
            decreases n - i,
        {
            let c = value.get_char(i);
            let m = if c == ' ' || c == '/' || c == '\\' || c == '.' || c == ',' {
                '_'
            } else {
                c
            };
            mapped.push(m);
            i = i + 1;
            proof {
                let pre = value@.subrange(0, i - 1);
                let now = value@.subrange(0, i as int);
                assert(now =~= pre.push(c));
                assert(now.map_values(|c: char| underscore_char(c)) =~= pre.map_values(
                    |c: char| underscore_char(c),
                ).push(underscore_char(c)));
            }
        }
        proof {
            assert(value@.subrange(0, n as int) =~= value@);
        }
        let ghost ms = mapped@;
        let n2: usize = mapped.len();
        proof {
            assert(ms.subrange(0, n2 as int) =~= ms);
        }
        let mut start: usize = 0;
        while start < n2 && mapped[start] == '_'
            invariant
                start <= n2,
                n2 == ms.len(),
                ms == mapped@,
                trim_lead(ms) == trim_lead(ms.subrange(start as int, n2 as int)),
            decreases n2 - start,
        {
            proof {
                let cur = ms.subrange(start as int, n2 as int);
                assert(cur[0] == '_');
                assert(cur.drop_first() =~= ms.subrange(start + 1, n2 as int));
            }
            start = start + 1;
        }
        let ghost t = ms.subrange(start as int, n2 as int);
        proof {
            assert(trim_lead(ms) == t);
        }
        let mut end: usize = n2;
        proof {
            assert(t.subrange(0, (n2 - start) as int) =~= t);
        }
        while end > start && mapped[end - 1] == '_'
            invariant
                start <= end <= n2,
                n2 == ms.len(),
                ms == mapped@,
                t == ms.subrange(start as int, n2 as int),
                trim_trail(t) == trim_trail(t.subrange(0, end - start)),
            decreases end,
        {
            proof {
                let cur = t.subrange(0, end - start);
                assert(cur.last() == ms[end - 1]);
                assert(cur.drop_last() =~= t.subrange(0, end - 1 - start));
            }
            end = end - 1;
        }
        let ghost u = t.subrange(0, end - start);
        proof {
            assert(trim_trail(t) == u);
            assert(u =~= ms.subrange(start as int, end as int));
        }
        let ghost w = u.map_values(|c: char| ascii_lower_char(c));
        let mut out: String = String::new();
        let mut i2: usize = start;
        while i2 < end
            invariant
                start <= i2 <= end <= n2,
                n2 == ms.len(),
                ms == mapped@,
                u == ms.subrange(start as int, end as int),
                w == u.map_values(|c: char| ascii_lower_char(c)),
                out@ == strip_chars(
                    ms.subrange(start as int, i2 as int).map_values(
                        |c: char| ascii_lower_char(c),
                    ),
                ),
            decreases end - i2,
        {
            let c = mapped[i2];
            let l = to_lower_char(c);
            if is_alnum(l) || l == '_' {
                out.push(l);
            }
            i2 = i2 + 1;
            proof {
                let pre = ms.subrange(start as int, i2 - 1).map_values(
                    |c: char| ascii_lower_char(c),
                );
                let now = ms.subrange(start as int, i2 as int).map_values(
                    |c: char| ascii_lower_char(c),
                );
                assert(ms.subrange(start as int, i2 as int) =~= ms.subrange(
                    start as int,
                    i2 - 1,
                ).push(c));
                assert(now =~= pre.push(ascii_lower_char(c)));
                assert(now.drop_last() =~= pre);
            }
        }
        proof {
            assert(ms.subrange(start as int, end as int) == u);
            assert(out@ == strip_chars(w));
            assert(slug_spec(value@) == strip_chars(trim_trail(trim_lead(ms)).map_values(
                |c: char| ascii_lower_char(c),
            )));
        }
        out
    }

    /// Observes one heading. A level above 1 is folded into the tree and
    /// the computed anchor id is handed back for the rewritten heading
    /// event; the sentinel heading `$` is skipped without touching any
    /// state; any other level-1 heading is the fatal authoring error.
    pub fn process_header(&mut self, level: u8, text: &Option<String>) -> (r: Result<
        Option<String>,
        TocError,
    >)
        requires
            old(self).wf(),
            1 <= level <= 6,
        ensures
            final(self).wf(),
            level == 1 && is_sentinel(*text) ==> *final(self) == *old(self) && (r matches Ok(o)
                && o is None),
            level == 1 && !is_sentinel(*text) ==> *final(self) == *old(self) && (r matches Err(e)
                && e.text@ == opt_text(*text) && e.url@ == seq!['#'] + heading_id(
                *text,
                old(self).last_level as int,
            )),
            level >= 2 ==> ({
                let item = heading_node(level as int, *text, old(self).last_level as int);
                let step = toc_step(
                    old(self).stack_model(),
                    old(self).last_level as int,
                    item,
                );
                &&& final(self).stack_model() == step.0
                &&& final(self).last_level as int == step.1
                &&& (r matches Ok(o) && o matches Some(id) && id@ == heading_id(
                    *text,
                    old(self).last_level as int,
                ))
            }),
    {
        let depth: usize = self.children_stack.len();
        let (header_text, header_id): (String, String) = match text {
            Some(t) => {
                let id = Self::string_to_id(t.as_str());
                (t.clone(), id)
            },
            None => {
                let mut g: String = String::new();
                g.append("generated_toc_entry_");
                let d: u8 = 48 + (depth as u8);
                g.push(d as char);
                proof {
                    assert(seq![d as char] =~= seq![(48 + depth as int) as char]);
                    assert(g@ =~= gen_id(depth as int));
                }
                (String::new(), g)
            },
        };
        proof {
            assert(header_id@ == heading_id(*text, depth as int));
            assert(header_text@ == opt_text(*text));
        }
        let mut url: String = String::new();
        url.append("#");
        url.append(header_id.as_str());
        proof {
            reveal_strlit("#");
            assert(url@ =~= seq!['#'] + heading_id(*text, depth as int));
        }
        if level == 1 {
            if let Some(t) = text {
                if str_eq(t.as_str(), "$") {
                    return Ok(None);
                }
            }
            return Err(TocError { text: header_text, url });
        }
        let item = TocItem { level: level as i8, text: header_text, url, children: Vec::new() };
        let ghost node = heading_node(level as int, *text, depth as int);
        proof {
            assert(items_view(item.children@) =~= Seq::<TocNode>::empty());
            assert(item_view(item) == node);
        }
        let ghost m0 = old(self).stack_model();
        let ghost last0 = old(self).last_level as int;
        proof {
            lemma_items_view_len(self.children_stack@);
        }
        let current_level: i8 = level as i8;
        if self.last_level < current_level {
            self.last_level = self.last_level + 1;
            self.children_stack.push(item);
            proof {
                assert(self.children_stack@.drop_last() =~= old(self).children_stack@);
                assert(self.stack_model() == m0.push(node));
            }
        } else if self.last_level == current_level {
            let ghost s0 = self.children_stack@;
            let top = self.children_stack.pop().unwrap();
            let mut parent = self.children_stack.pop().unwrap();
            parent.children.push(top);
            self.children_stack.push(parent);
            let ghost s_mid = self.children_stack@;
            proof {
                assert(s_mid =~= s0.subrange(0, s0.len() - 2).push(parent));
                lemma_fold_exec(s0, s_mid, top, parent);
            }
            self.children_stack.push(item);
            proof {
                assert(self.children_stack@.drop_last() =~= s_mid);
                assert(self.stack_model() == items_view(s_mid).push(item_view(item)));
                assert(self.stack_model() == fold_top(m0).push(node));
            }
        } else {
            let count: i8 = self.last_level - current_level + 1;
            let mut j: i8 = 0;
            while j < count
                invariant
                    0 <= j <= count,
                    2 <= current_level <= 6,
                    count == last0 - current_level + 1,
                    last0 <= 6,
                    self.last_level as int == last0 - j,
                    self.children_stack@.len() == self.last_level as int,
                    current_level - 1 <= self.last_level,
                    self.stack_model() == fold_n(m0, j as nat),
                decreases count - j,
            {
                let ghost s_before = self.children_stack@;
                let top = self.children_stack.pop().unwrap();
                let mut parent = self.children_stack.pop().unwrap();
                parent.children.push(top);
                self.children_stack.push(parent);
                self.last_level = self.last_level - 1;
                j = j + 1;
                proof {
                    assert(self.children_stack@ =~= s_before.subrange(
                        0,
                        s_before.len() - 2,
                    ).push(parent));
                    lemma_fold_exec(s_before, self.children_stack@, top, parent);
                    lemma_fold_n_snoc(m0, (j - 1) as nat);
                    lemma_items_view_len(self.children_stack@);
                }
            }
            let ghost s_mid = self.children_stack@;
            self.children_stack.push(item);
            self.last_level = self.last_level + 1;
            proof {
                assert(self.children_stack@.drop_last() =~= s_mid);
                assert(self.stack_model() == items_view(s_mid).push(item_view(item)));
                assert(self.stack_model() == fold_n(m0, (last0 - current_level + 1) as nat).push(
                    node,
                ));
            }
        }
        proof {
            lemma_items_view_len(self.children_stack@);
        }
        Ok(Some(header_id))
    }

    /// Folds everything still open into its parent and returns the finished
    /// tree; consuming the builder makes a second finalisation impossible.
    pub fn get_toc_value(self) -> (r: Option<TocItem>)
        requires
            self.wf(),
        ensures
            r matches Some(root) && item_view(root) == finalize_spec(self.stack_model()),
    {
        let mut g = self;
        let ghost m0 = g.stack_model();
        proof {
            lemma_items_view_len(g.children_stack@);
        }
        let count: usize = g.children_stack.len() - 1;
        let mut j: usize = 0;
        while j < count
            invariant
                0 <= j <= count,
                count < m0.len(),
                g.children_stack@.len() == m0.len() - j,
                g.stack_model() == fold_n(m0, j as nat),
            decreases count - j,
        {
            let ghost s_before = g.children_stack@;
            let top = g.children_stack.pop().unwrap();
            let mut parent = g.children_stack.pop().unwrap();
            parent.children.push(top);
            g.children_stack.push(parent);
            j = j + 1;
            proof {
                assert(g.children_stack@ =~= s_before.subrange(0, s_before.len() - 2).push(
                    parent,
                ));
                lemma_fold_exec(s_before, g.children_stack@, top, parent);
                lemma_fold_n_snoc(m0, (j - 1) as nat);
                lemma_items_view_len(g.children_stack@);
            }
        }
        let ghost s_last = g.children_stack@;
        let root = g.children_stack.pop().unwrap();
        proof {
            assert(s_last.len() == 1);
            assert(root == s_last[0] && root == s_last.last());
            assert(items_view(s_last) == fold_n(m0, count as nat));
            assert(items_view(s_last.drop_last()) =~= Seq::<TocNode>::empty());
            assert(items_view(s_last) =~= seq![item_view(root)]);
            assert(item_view(root) == fold_n(m0, count as nat)[0]);
        }
        Some(root)
    }
}

/// The executable pop-append-push step implements one fold of the model.
proof fn lemma_fold_exec(s: Seq<TocItem>, s2: Seq<TocItem>, top: TocItem, parent2: TocItem)
    requires
        s.len() >= 2,
        top == s.last(),
        parent2.level == s[s.len() - 2].level,
        parent2.text == s[s.len() - 2].text,
        parent2.url == s[s.len() - 2].url,
        parent2.children@ == s[s.len() - 2].children@.push(top),
        s2 == s.subrange(0, s.len() - 2).push(parent2),
    ensures
        items_view(s2) == fold_top(items_view(s)),
        items_view(s2).len() == s.len() - 1,
{
    let m = items_view(s);
    lemma_items_view_len(s);
    lemma_items_view_index(s, s.len() - 2);
    assert(s.drop_last() =~= s.subrange(0, s.len() - 1));
    assert(items_view(s).drop_last() == items_view(s.drop_last()));
    assert(s.drop_last().drop_last() =~= s.subrange(0, s.len() - 2));
    assert(items_view(s.drop_last()).drop_last() == items_view(s.drop_last().drop_last()));
    assert(items_view(s2) == items_view(s.subrange(0, s.len() - 2)).push(item_view(parent2)))
        by {
        assert(s2.drop_last() =~= s.subrange(0, s.len() - 2));
    }
    assert(item_view(parent2).children == items_view(s[s.len() - 2].children@).push(
        item_view(top),
    )) by {
        assert(parent2.children@.drop_last() =~= s[s.len() - 2].children@);
    }
    assert(item_view(parent2) == push_child(item_view(s[s.len() - 2]), item_view(s.last())));
    assert(m.drop_last().drop_last() =~= m.subrange(0, m.len() - 2)) by {
        lemma_items_view_len(s.drop_last());
        lemma_items_view_len(s.drop_last().drop_last());
    }
    assert(m[m.len() - 2] == item_view(s[s.len() - 2])) by {
        lemma_items_view_index(s, s.len() - 2);
    }
    assert(m.last() == item_view(s.last())) by {
        lemma_items_view_index(s, s.len() - 1);
    }
    assert(items_view(s2) =~= fold_top(m));
    lemma_items_view_len(s2);
}

} // verus!
