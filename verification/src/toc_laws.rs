//! Laws of the table-of-contents builder: over any run of the heading
//! machine whose levels never jump, the finished tree is exactly as deep as
//! the deepest heading, and a preorder walk reads the document title
//! followed by every heading text in document order.
use vstd::prelude::*;
use crate::toc::finalize_spec;
use crate::toc::fold_n;
use crate::toc::fold_top;
use crate::toc::push_child;
use crate::toc::root_node;
use crate::toc::toc_step;
use crate::toc::TocNode;

verus! {

/// The larger of two naturals.
pub open spec fn nat_max(a: nat, b: nat) -> nat {
    if a >= b {
        a
    } else {
        b
    }
}

/// The depth of a tree: one for the node itself plus its deepest child.
pub open spec fn depth_of(n: TocNode) -> nat
    decreases n,
{
    1 + depths_max(n.children)
}

/// The deepest of a sequence of subtrees, zero when there are none.
pub open spec fn depths_max(cs: Seq<TocNode>) -> nat
    decreases cs,
{
    if cs.len() == 0 {
        0
    } else {
        nat_max(depths_max(cs.drop_last()), depth_of(cs.last()))
    }
}

/// The texts of a tree in preorder: the node first, then its children left
/// to right.
pub open spec fn preorder_texts(n: TocNode) -> Seq<Seq<char>>
    decreases n,
{
    seq![n.text] + preorder_all(n.children)
}

/// The preorder texts of a forest, left to right.
pub open spec fn preorder_all(cs: Seq<TocNode>) -> Seq<Seq<char>>
    decreases cs,
{
    if cs.len() == 0 {
        Seq::empty()
    } else {
        preorder_all(cs.drop_last()) + preorder_texts(cs.last())
    }
}

/// The whole run of the builder over a flat heading stream, starting from
/// the synthetic root.
pub open spec fn run_toc(title: Seq<char>, items: Seq<TocNode>) -> (Seq<TocNode>, int)
    decreases items.len(),
{
    if items.len() == 0 {
        (seq![root_node(title)], 1)
    } else {
        let prev = run_toc(title, items.drop_last());
        toc_step(prev.0, prev.1, items.last())
    }
}

/// The level reached after a run, which the headings determine alone.
pub open spec fn run_level(items: Seq<TocNode>) -> int
    decreases items.len(),
{
    if items.len() == 0 {
        1
    } else {
        let prev = run_level(items.drop_last());
        let l = items.last().level;
        if prev < l {
            prev + 1
        } else {
            l
        }
    }
}

/// The deepest heading level of the stream, zero when it is empty.
pub open spec fn max_level(items: Seq<TocNode>) -> int
    decreases items.len(),
{
    if items.len() == 0 {
        0
    } else {
        let rest = max_level(items.drop_last());
        if rest >= items.last().level {
            rest
        } else {
            items.last().level
        }
    }
}

/// A heading stream the builder accepts without level jumps: every heading
/// is a fresh leaf whose level lies between 2 and one more than the level
/// reached so far.
pub open spec fn well_leveled(items: Seq<TocNode>) -> bool
    decreases items.len(),
{
    if items.len() == 0 {
        true
    } else {
        &&& well_leveled(items.drop_last())
        &&& 2 <= items.last().level <= run_level(items.drop_last()) + 1
        &&& items.last().children.len() == 0
    }
}

/// The deepest point any stack entry reaches once everything is folded:
/// each entry sits one level below its neighbour.
pub open spec fn stack_depth(m: Seq<TocNode>) -> nat
    decreases m.len(),
{
    if m.len() == 0 {
        0
    } else {
        nat_max(stack_depth(m.drop_last()), (m.len() - 1 + depth_of(m.last())) as nat)
    }
}

/// The preorder texts of the whole stack, bottom to top.
pub open spec fn stack_texts(m: Seq<TocNode>) -> Seq<Seq<char>>
    decreases m.len(),
{
    if m.len() == 0 {
        Seq::empty()
    } else {
        stack_texts(m.drop_last()) + preorder_texts(m.last())
    }
}

proof fn lemma_push_child_depth(p: TocNode, c: TocNode)
    ensures
        depth_of(push_child(p, c)) == nat_max(depth_of(p), 1 + depth_of(c)),
        preorder_texts(push_child(p, c)) == preorder_texts(p) + preorder_texts(c),
{
    assert(p.children.push(c).drop_last() =~= p.children);
    assert(depths_max(p.children.push(c)) == nat_max(depths_max(p.children), depth_of(c)));
    assert(preorder_all(p.children.push(c)) == preorder_all(p.children) + preorder_texts(c));
    assert(preorder_texts(push_child(p, c)) =~= preorder_texts(p) + preorder_texts(c));
}

proof fn lemma_fold_top_measures(m: Seq<TocNode>)
    requires
        m.len() >= 2,
    ensures
        fold_top(m).len() == m.len() - 1,
        stack_depth(fold_top(m)) == stack_depth(m),
        stack_texts(fold_top(m)) == stack_texts(m),
{
    let f = fold_top(m);
    let front = m.subrange(0, m.len() - 2);
    let merged = push_child(m[m.len() - 2], m.last());
    lemma_push_child_depth(m[m.len() - 2], m.last());
    assert(f.drop_last() =~= front);
    assert(m.drop_last().drop_last() =~= front);
    assert(m.drop_last().last() == m[m.len() - 2]);
    assert(stack_depth(f) == nat_max(stack_depth(front), (m.len() - 2 + depth_of(merged)) as nat));
    assert(stack_depth(m.drop_last()) == nat_max(
        stack_depth(front),
        (m.len() - 2 + depth_of(m[m.len() - 2])) as nat,
    ));
    assert(stack_depth(m) == nat_max(
        nat_max(stack_depth(front), (m.len() - 2 + depth_of(m[m.len() - 2])) as nat),
        (m.len() - 1 + depth_of(m.last())) as nat,
    ));
    assert(stack_texts(f) == stack_texts(front) + (preorder_texts(m[m.len() - 2])
        + preorder_texts(m.last())));
    assert(stack_texts(m.drop_last()) == stack_texts(front) + preorder_texts(m[m.len() - 2]));
    assert(stack_texts(m) == (stack_texts(front) + preorder_texts(m[m.len() - 2]))
        + preorder_texts(m.last()));
    assert(stack_texts(f) =~= stack_texts(m));
}

proof fn lemma_fold_n_measures(m: Seq<TocNode>, k: nat)
    requires
        k < m.len(),
    ensures
        fold_n(m, k).len() == m.len() - k,
        stack_depth(fold_n(m, k)) == stack_depth(m),
        stack_texts(fold_n(m, k)) == stack_texts(m),
    decreases k,
{
    if k > 0 {
        lemma_fold_top_measures(m);
        lemma_fold_n_measures(fold_top(m), (k - 1) as nat);
    }
}

proof fn lemma_push_leaf_measures(m: Seq<TocNode>, leaf: TocNode)
    requires
        leaf.children.len() == 0,
    ensures
        stack_depth(m.push(leaf)) == nat_max(stack_depth(m), (m.len() + 1) as nat),
        stack_texts(m.push(leaf)) == stack_texts(m) + seq![leaf.text],
{
    assert(m.push(leaf).drop_last() =~= m);
    assert(depth_of(leaf) == 1);
    assert(preorder_texts(leaf) =~= seq![leaf.text]);
}

/// Over a whole run: the stack height equals the level reached, and the
/// folded measures track the maximum level and the text order.
proof fn lemma_run_measures(title: Seq<char>, items: Seq<TocNode>)
    requires
        well_leveled(items),
    ensures
        run_toc(title, items).1 == run_level(items),
        run_toc(title, items).0.len() == run_level(items),
        1 <= run_level(items),
        run_level(items) == if items.len() == 0 {
            1int
        } else {
            items.last().level
        },
        stack_depth(run_toc(title, items).0) == nat_max(1, max_level(items) as nat),
        stack_texts(run_toc(title, items).0) == seq![title] + items.map_values(
            |n: TocNode| n.text,
        ),
    decreases items.len(),
{
    if items.len() == 0 {
        let m = run_toc(title, items).0;
        assert(m.drop_last() =~= Seq::<TocNode>::empty());
        assert(stack_depth(Seq::<TocNode>::empty()) == 0);
        assert(stack_texts(Seq::<TocNode>::empty()) == Seq::<Seq<char>>::empty());
        assert(stack_depth(m) == nat_max(0, (0 + depth_of(root_node(title))) as nat));
        assert(depths_max(root_node(title).children) == 0);
        assert(depth_of(root_node(title)) == 1);
        assert(preorder_all(root_node(title).children) == Seq::<Seq<char>>::empty());
        assert(preorder_texts(root_node(title)) =~= seq![title]);
        assert(stack_texts(m) =~= seq![title] + items.map_values(|n: TocNode| n.text));
    } else {
        let front = items.drop_last();
        let item = items.last();
        lemma_run_measures(title, front);
        let prev = run_toc(title, front);
        let l = item.level;
        let texts_eq: bool = true;
        assert(items.map_values(|n: TocNode| n.text) =~= front.map_values(|n: TocNode| n.text)
            + seq![item.text]);
        if prev.1 < l {
            lemma_push_leaf_measures(prev.0, item);
            assert(stack_depth(run_toc(title, items).0) == nat_max(
                nat_max(1, max_level(front) as nat),
                (prev.1 + 1) as nat,
            ));
            assert(stack_texts(run_toc(title, items).0) =~= seq![title] + items.map_values(
                |n: TocNode| n.text,
            ));
        } else if prev.1 == l {
            lemma_fold_top_measures(prev.0);
            lemma_push_leaf_measures(fold_top(prev.0), item);
            assert(stack_texts(run_toc(title, items).0) =~= seq![title] + items.map_values(
                |n: TocNode| n.text,
            ));
        } else {
            let k = (prev.1 - l + 1) as nat;
            lemma_fold_n_measures(prev.0, k);
            lemma_push_leaf_measures(fold_n(prev.0, k), item);
            assert(stack_texts(run_toc(title, items).0) =~= seq![title] + items.map_values(
                |n: TocNode| n.text,
            ));
        }
    }
}

proof fn lemma_finalize_measures(m: Seq<TocNode>)
    requires
        m.len() >= 1,
    ensures
        depth_of(finalize_spec(m)) == stack_depth(m),
        preorder_texts(finalize_spec(m)) == stack_texts(m),
    decreases m.len(),
{
    if m.len() == 1 {
        assert(m.drop_last() =~= Seq::<TocNode>::empty());
        assert(stack_depth(Seq::<TocNode>::empty()) == 0);
        assert(stack_texts(Seq::<TocNode>::empty()) == Seq::<Seq<char>>::empty());
        assert(stack_depth(m) == nat_max(0, (0 + depth_of(m.last())) as nat));
        assert(fold_n(m, 0) == m);
        assert(finalize_spec(m) == m[0]);
        assert(stack_texts(m) =~= preorder_texts(m[0]));
    } else {
        lemma_fold_top_measures(m);
        lemma_finalize_measures(fold_top(m));
        assert(fold_n(m, (m.len() - 1) as nat) == fold_n(
            fold_top(m),
            (m.len() - 2) as nat,
        ));
        assert(finalize_spec(m) == finalize_spec(fold_top(m)));
    }
}

/// The depth law and the order law of the table of contents. For every
/// heading stream the builder accepts without level jumps, the finished
/// tree is exactly as deep as the deepest heading level (or just the root
/// when there are no headings), and reading the tree in preorder gives the
/// document title followed by the heading texts in document order, so
/// every node's children stand in document order.
pub proof fn lemma_toc_depth_and_order(title: Seq<char>, items: Seq<TocNode>)
    requires
        well_leveled(items),
    ensures
        depth_of(finalize_spec(run_toc(title, items).0)) == nat_max(1, max_level(items) as nat),
        preorder_texts(finalize_spec(run_toc(title, items).0)) == seq![title]
            + items.map_values(|n: TocNode| n.text),
{
    lemma_run_measures(title, items);
    lemma_finalize_measures(run_toc(title, items).0);
}

} // verus!
