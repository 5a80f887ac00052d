//! Flattening a table of contents: a forest of navigation entries becomes one
//! list in document order, each line carrying its depth.
use vstd::prelude::*;

use crate::library::IndexItem;

verus! {

broadcast use {vstd::seq::axiom_seq_subrange_decreases, vstd::std_specs::vec::axiom_vec_decreases_to_view};

/// One entry of a navigation tree, as the archive gives it.
pub struct NavNode {
    pub label: String,
    pub path: String,
    pub children: Vec<NavNode>,
}

/// A line of the flattened index: label, path, depth.
pub type Line = (Seq<char>, Seq<char>, nat);

impl IndexItem {
    pub open spec fn line(&self) -> Line {
        (self.label@, self.path@, self.level as nat)
    }
}

pub open spec fn lines_of(items: Seq<IndexItem>) -> Seq<Line> {
    items.map_values(|it: IndexItem| it.line())
}

/// Pre-order flattening of a forest whose roots stand at depth `level`: a node
/// comes before its children, siblings keep their order.
pub open spec fn flatten(ns: Seq<NavNode>, level: nat) -> Seq<Line>
    decreases ns,
{
    if ns.len() == 0 {
        Seq::empty()
    } else {
        let n = ns[0];
        seq![(n.label@, n.path@, level)] + flatten(n.children@, level + 1) + flatten(
            ns.subrange(1, ns.len() as int),
            level,
        )
    }
}

/// What is still to be emitted from a work stack whose top is its last element.
pub open spec fn flatten_stack(st: Seq<(NavNode, nat)>) -> Seq<Line>
    decreases st.len(),
{
    if st.len() == 0 {
        Seq::empty()
    } else {
        let top = st.last();
        flatten(seq![top.0], top.1) + flatten_stack(st.drop_last())
    }
}

/// The stack entries for a forest at one level, first sibling on top.
pub open spec fn pushed(ns: Seq<NavNode>, level: nat) -> Seq<(NavNode, nat)> {
    Seq::new(ns.len(), |i: int| (ns[ns.len() - 1 - i], level))
}

proof fn lemma_pushed_step(ns: Seq<NavNode>, level: nat)
    requires
        ns.len() > 0,
    ensures
        pushed(ns, level) == pushed(ns.subrange(1, ns.len() as int), level).push((ns[0], level)),
{
    assert(pushed(ns, level) =~= pushed(ns.subrange(1, ns.len() as int), level).push((ns[0], level)));
}

proof fn lemma_flatten_single(n: NavNode, level: nat)
    ensures
        flatten(seq![n], level) == seq![(n.label@, n.path@, level)] + flatten(n.children@, level + 1),
{
    let s = seq![n];
    assert(s.subrange(1, 1) =~= Seq::<NavNode>::empty());
    assert(flatten(s.subrange(1, 1), level) == Seq::<Line>::empty());
    assert(flatten(s, level) =~= seq![(n.label@, n.path@, level)] + flatten(n.children@, level + 1));
}

proof fn lemma_flatten_stack_pushed(base: Seq<(NavNode, nat)>, ns: Seq<NavNode>, level: nat)
    ensures
        flatten_stack(base + pushed(ns, level)) == flatten(ns, level) + flatten_stack(base),
    decreases ns.len(),
{
    if ns.len() == 0 {
        assert(base + pushed(ns, level) =~= base);
    } else {
        let rest = ns.subrange(1, ns.len() as int);
        let st = base + pushed(ns, level);
        assert(st.last() == (ns[0], level));
        assert(st.drop_last() =~= base + pushed(rest, level));
        lemma_flatten_stack_pushed(base, rest, level);
        lemma_flatten_single(ns[0], level);
        assert(flatten_stack(st) =~= flatten(ns, level) + flatten_stack(base));
    }
}

/// Flattens a table of contents in document order with an explicit work
/// stack, so that deep nesting costs no recursion. Roots have level 0 and each
/// child is one level below its parent.
pub fn flatten_toc(toc: &Vec<NavNode>) -> (r: Vec<IndexItem>)
    requires
        flatten(toc@, 0).len() <= u32::MAX,
    ensures
        lines_of(r@) == flatten(toc@, 0),
{
    let mut index: Vec<IndexItem> = Vec::new();
    let mut stack: Vec<(&NavNode, u32)> = Vec::new();
    let n = toc.len();
    let mut k: usize = n;
    while k > 0
        invariant
            n == toc@.len(),
            k <= n,
            index@.len() == 0,
            stack@.map_values(|e: (&NavNode, u32)| (*e.0, e.1 as nat)) == pushed(
                toc@.subrange(k as int, n as int),
                0,
            ),
            forall|j: int| 0 <= j < stack@.len() ==> stack@[j].1 == 0,
        decreases k,
    {
        k = k - 1;
        let ghost prev = stack@;
        stack.push((&toc[k], 0));
        proof {
            let ns = toc@.subrange(k as int, n as int);
            lemma_pushed_step(ns, 0);
            assert(ns.subrange(1, ns.len() as int) =~= toc@.subrange(k + 1, n as int));
            assert(stack@ == prev.push((&toc[k as int], 0u32)));
            assert(stack@.map_values(|e: (&NavNode, u32)| (*e.0, e.1 as nat)) =~= prev.map_values(
                |e: (&NavNode, u32)| (*e.0, e.1 as nat),
            ).push((toc@[k as int], 0)));
        }
    }
    proof {
        assert(toc@.subrange(0, n as int) =~= toc@);
        lemma_flatten_stack_pushed(Seq::empty(), toc@, 0);
        assert(Seq::<(NavNode, nat)>::empty() + pushed(toc@, 0) =~= pushed(toc@, 0));
    }
    while stack.len() > 0
        invariant
            flatten(toc@, 0).len() <= u32::MAX,
            lines_of(index@) + flatten_stack(
                stack@.map_values(|e: (&NavNode, u32)| (*e.0, e.1 as nat)),
            ) == flatten(toc@, 0),
            forall|j: int| 0 <= j < stack@.len() ==> stack@[j].1 <= index@.len(),
        decreases flatten(toc@, 0).len() - index@.len(),
    {
        let ghost before = stack@.map_values(|e: (&NavNode, u32)| (*e.0, e.1 as nat));
        let (nav, level) = stack.pop().unwrap();
        let ghost rest = stack@.map_values(|e: (&NavNode, u32)| (*e.0, e.1 as nat));
        proof {
            assert(before.drop_last() =~= rest);
            lemma_flatten_single(*nav, level as nat);
            assert(flatten_stack(before) == seq![(nav.label@, nav.path@, level as nat)] + flatten(
                nav.children@,
                level as nat + 1,
            ) + flatten_stack(rest));
            assert(lines_of(index@).len() + 1 <= flatten(toc@, 0).len());
        }
        let ghost old_index = index@;
        index.push(IndexItem { label: nav.label.clone(), path: nav.path.clone(), level });
        proof {
            assert(lines_of(index@) =~= lines_of(old_index).push(
                (nav.label@, nav.path@, level as nat),
            ));
            assert(level + 1 <= index@.len());
            assert(index@.len() <= flatten(toc@, 0).len());
        }
        let m = nav.children.len();
        let mut c: usize = m;
        let ghost mid = stack@;
        while c > 0
            invariant
                m == nav.children@.len(),
                c <= m,
                level < u32::MAX,
                level + 1 <= index@.len(),
                forall|j: int| 0 <= j < stack@.len() ==> stack@[j].1 <= index@.len(),
                stack@.len() == mid.len() + (m - c),
                forall|j: int| 0 <= j < mid.len() ==> stack@[j] == mid[j],
                stack@.map_values(|e: (&NavNode, u32)| (*e.0, e.1 as nat)).subrange(
                    mid.len() as int,
                    stack@.len() as int,
                ) == pushed(nav.children@.subrange(c as int, m as int), level as nat + 1),
                forall|j: int| mid.len() <= j < stack@.len() ==> stack@[j].1 == level + 1,
            decreases c,
        {
            c = c - 1;
            let ghost prev = stack@;
            stack.push((&nav.children[c], level + 1));
            proof {
                let ns = nav.children@.subrange(c as int, m as int);
                lemma_pushed_step(ns, level as nat + 1);
                assert(ns.subrange(1, ns.len() as int) =~= nav.children@.subrange(c + 1, m as int));
                let f = |e: (&NavNode, u32)| (*e.0, e.1 as nat);
                assert(stack@.map_values(f).subrange(mid.len() as int, stack@.len() as int)
                    =~= prev.map_values(f).subrange(mid.len() as int, prev.len() as int).push(
                    (nav.children@[c as int], level as nat + 1),
                ));
            }
        }
        proof {
            let now = stack@.map_values(|e: (&NavNode, u32)| (*e.0, e.1 as nat));
            assert(nav.children@.subrange(0, m as int) =~= nav.children@);
            assert(now =~= rest + pushed(nav.children@, level as nat + 1));
            lemma_flatten_stack_pushed(rest, nav.children@, level as nat + 1);
        }
    }
    index
}

} // verus!
