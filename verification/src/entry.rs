//! Benchmark entries and the tree that organizes them by module path.

use vstd::prelude::*;
use vstd::string::StrSliceExecFns;

verus! {

/// Static descriptor of one benchmarked function, produced by an external
/// registration step and only read here.
pub struct Entry {
    /// The benchmarked function's name.
    pub name: &'static str,

    /// The benchmarked function's module path.
    pub module: &'static str,

    /// `module` and `name` joined.
    pub full_path: &'static str,

    /// The file where the benchmarked function was defined.
    pub file: &'static str,

    /// The line where the benchmarked function was defined.
    pub line: u32,

    /// Whether this entry was marked as ignored.
    pub ignore: bool,

    /// The benchmarking loop.
    pub bench_loop: BenchLoop,
}

/// How an entry's benchmark runs. The function itself lives with the
/// driver that registered the entry; here only the calling shape is kept,
/// since a function pointer is opaque to the verifier.
#[derive(Clone, Copy, Debug, PartialEq, Eq, Structural)]
pub enum BenchLoop {
    /// Statically-constructed: takes the sampling engine directly.
    Static,

    /// Runtime-constructed: takes a `Bencher` handle.
    Runtime,
}

/// Position of the first `::` separator at or after `from`, if any.
pub open spec fn first_sep_from(s: Seq<char>, from: nat) -> Option<nat>
    decreases s.len() - from,
    when from <= s.len()
{
    if from + 2 > s.len() {
        None
    } else if s[from as int] == ':' && s[from as int + 1] == ':' {
        Some(from)
    } else {
        first_sep_from(s, from + 1)
    }
}

/// The `::`-delimited segments of `s` from position `from` on: the text up
/// to the first separator, then the segments of what follows it.
pub open spec fn split_from(s: Seq<char>, from: nat) -> Seq<Seq<char>>
    decreases s.len() - from,
    when from <= s.len()
    via split_from_decreases
{
    match first_sep_from(s, from) {
        None => seq![s.subrange(from as int, s.len() as int)],
        Some(j) => seq![s.subrange(from as int, j as int)] + split_from(s, j + 2),
    }
}

#[via_fn]
proof fn split_from_decreases(s: Seq<char>, from: nat) {
    if first_sep_from(s, from) is Some {
        lemma_first_sep_bounds(s, from);
    }
}

/// The separator that `first_sep_from` reports lies at or after `from` and
/// fits before the end of the text.
pub proof fn lemma_first_sep_bounds(s: Seq<char>, from: nat)
    requires
        from <= s.len(),
        first_sep_from(s, from) is Some,
    ensures
        from <= first_sep_from(s, from)->0,
        first_sep_from(s, from)->0 + 2 <= s.len(),
    decreases s.len() - from,
{
    if from + 2 > s.len() {
    } else if s[from as int] == ':' && s[from as int + 1] == ':' {
    } else {
        lemma_first_sep_bounds(s, from + 1);
    }
}

/// Position of the first `::` at or after `from` in `s`, scanning left to
/// right.
fn find_sep(s: &str, from: usize) -> (r: Option<usize>)
    requires
        from <= s@.len(),
    ensures
        match r {
            Some(j) => first_sep_from(s@, from as nat) == Some(j as nat) && from <= j && j + 2
                <= s@.len(),
            None => first_sep_from(s@, from as nat) is None,
        },
{
    let n = s.unicode_len();
    let mut i = from;
    while i < n && i + 1 < n
        invariant
            from <= i <= n,
            n == s@.len(),
            first_sep_from(s@, from as nat) == first_sep_from(s@, i as nat),
        decreases n - i,
    {
        if s.get_char(i) == ':' && s.get_char(i + 1) == ':' {
            return Some(i);
        }
        proof {
            assert(first_sep_from(s@, i as nat) == first_sep_from(s@, (i + 1) as nat));
        }
        i = i + 1;
    }
    None
}

/// Splits `s` from position `from` into its `::`-delimited segments.
fn split_str(s: &'static str, from: usize) -> (r: Vec<&'static str>)
    requires
        from <= s@.len(),
    ensures
        seg_views(r@) == split_from(s@, from as nat),
    decreases s@.len() - from,
{
    let n = s.unicode_len();
    match find_sep(s, from) {
        None => {
            let seg = s.substring_char(from, n);
            let r = vec![seg];
            proof {
                assert(seg_views(r@) =~= split_from(s@, from as nat));
            }
            r
        },
        Some(j) => {
            let seg = s.substring_char(from, j);
            let mut r = split_str(s, j + 2);
            let ghost tail = r@;
            r.insert(0, seg);
            proof {
                let whole = split_from(s@, from as nat);
                assert(from as nat <= s@.len());
                assert(first_sep_from(s@, from as nat) == Some(j as nat));
                assert(from <= j && j + 2 <= s@.len());
                assert(first_sep_from(s@, from as nat) matches Some(jj) ==> from as nat <= jj && jj
                    + 2 <= s@.len());
                assert(whole =~= seq![s@.subrange(from as int, j as int)] + split_from(
                    s@,
                    (j + 2) as nat,
                ));
                assert(r@ =~= seq![seg].add(tail));
                assert forall|k: int| 0 <= k < r@.len() implies seg_views(r@)[k] == whole[k] by {
                    if k == 0 {
                        assert(r@[0] == seg);
                    } else {
                        assert(r@[k] == tail[k - 1]);
                        assert(seg_views(tail)[k - 1] == tail[k - 1]@);
                        assert(whole[k] == split_from(s@, (j + 2) as nat)[k - 1]);
                    }
                }
                assert(seg_views(r@) =~= whole);
            }
            r
        },
    }
}

impl Entry {
    /// The `::`-delimited segments of this entry's module path.
    pub fn module_components(&self) -> (r: Vec<&'static str>)
        ensures
            seg_views(r@) == split_from(self.module@, 0),
    {
        split_str(self.module, 0)
    }

    /// Sorting key: alphabetical by full path, ties broken by location.
    pub fn sorting_key(&self) -> (r: (&'static str, &'static str, u32))
        ensures
            r == (self.full_path, self.file, self.line),
    {
        (self.full_path, self.file, self.line)
    }
}

/// `Entry` tree organized by path components.
pub enum EntryTree<'a> {
    /// One benchmark entry.
    Leaf(&'a Entry),
    /// A shared path segment and the subtrees under it.
    Parent { name: &'static str, children: Vec<EntryTree<'a>> },
}

/// The larger of two naturals.
pub open spec fn max_nat(a: nat, b: nat) -> nat {
    if a >= b {
        a
    } else {
        b
    }
}

impl<'a> EntryTree<'a> {
    /// The node's own name segment.
    pub open spec fn spec_name(self) -> Seq<char> {
        match self {
            EntryTree::Leaf(e) => e.name@,
            EntryTree::Parent { name, .. } => name@,
        }
    }

    /// The node's subtrees; a leaf has none.
    pub open spec fn spec_children(self) -> Seq<EntryTree<'a>> {
        match self {
            EntryTree::Leaf(_) => Seq::empty(),
            EntryTree::Parent { children, .. } => children@,
        }
    }
}

/// Merge invariant of the tree: within any sequence of siblings, no two
/// `Parent` nodes share a name, and every subtree keeps the invariant.
pub open spec fn wf_forest(ts: Seq<EntryTree>) -> bool
    decreases ts,
{
    (forall|i: int, j: int|
        0 <= i < j < ts.len() && ts[i] is Parent && ts[j] is Parent ==> (#[trigger] ts[i]).spec_name()
            != (#[trigger] ts[j]).spec_name()) && (forall|i: int|
        0 <= i < ts.len() ==> wf_tree(#[trigger] ts[i]))
}

/// The subtrees of every node keep the merge invariant.
pub open spec fn wf_tree(t: EntryTree) -> bool
    decreases t,
{
    match t {
        EntryTree::Leaf(_) => true,
        EntryTree::Parent { name: _, children } => wf_forest(children@),
    }
}

/// Name span of one node: its own name length plus four columns per level,
/// or the best span among its children one level down, whichever is larger.
pub open spec fn span_tree(t: EntryTree, depth: nat) -> nat
    decreases t, 0nat,
{
    match t {
        EntryTree::Leaf(e) => e.name@.len() + depth * 4,
        EntryTree::Parent { name, children } => max_nat(
            name@.len() + depth * 4,
            span_forest(children@, depth + 1, 0),
        ),
    }
}

/// Largest name span among the nodes of `ts` from position `k` on.
pub open spec fn span_forest(ts: Seq<EntryTree>, depth: nat, k: nat) -> nat
    decreases ts, ts.len() - k,
    when k <= ts.len()
{
    if k >= ts.len() {
        0
    } else {
        max_nat(span_tree(ts[k as int], depth), span_forest(ts, depth, k + 1))
    }
}

/// Every node's span, including every node at or past `k`, is at least
/// `span_tree` of that node, and a node's span is at least four per level.
pub proof fn lemma_span_forest_element(ts: Seq<EntryTree>, depth: nat, k: nat, i: nat)
    requires
        k <= i < ts.len(),
    ensures
        span_forest(ts, depth, k) >= span_tree(ts[i as int], depth),
        span_tree(ts[i as int], depth) >= depth * 4,
    decreases i - k,
{
    if k < i {
        lemma_span_forest_element(ts, depth, k + 1, i);
    }
}

/// Spec-level shape of a tree node: the same structure with mathematical
/// sequences for the children, so that building the tree can be stated as a
/// function of the entries.
#[verifier::ext_equal]
pub enum TreeModel<'a> {
    /// One benchmark entry.
    Leaf(&'a Entry),
    /// A shared path segment and the shapes of the subtrees under it.
    Parent { name: Seq<char>, children: Seq<TreeModel<'a>> },
}

impl<'a> TreeModel<'a> {
    /// The node's own name segment.
    pub open spec fn name_of(self) -> Seq<char> {
        match self {
            TreeModel::Leaf(e) => e.name@,
            TreeModel::Parent { name, .. } => name,
        }
    }

    /// The node's subtrees; a leaf has none.
    pub open spec fn children_of(self) -> Seq<TreeModel<'a>> {
        match self {
            TreeModel::Leaf(_) => Seq::empty(),
            TreeModel::Parent { children, .. } => children,
        }
    }
}

/// The shape of one node.
pub open spec fn model_tree<'a>(t: EntryTree<'a>) -> TreeModel<'a>
    decreases t, 0nat,
{
    match t {
        EntryTree::Leaf(e) => TreeModel::Leaf(e),
        EntryTree::Parent { name, children } => TreeModel::Parent {
            name: name@,
            children: model_forest(children@, 0),
        },
    }
}

/// The shapes of the nodes of `ts` from position `k` on.
pub open spec fn model_forest<'a>(ts: Seq<EntryTree<'a>>, k: nat) -> Seq<TreeModel<'a>>
    decreases ts, ts.len() - k,
    when k <= ts.len()
{
    if k >= ts.len() {
        Seq::empty()
    } else {
        seq![model_tree(ts[k as int])] + model_forest(ts, k + 1)
    }
}

/// A forest's shape has one node shape per tree, in order.
pub proof fn lemma_model_forest_index<'a>(ts: Seq<EntryTree<'a>>, k: nat)
    requires
        k <= ts.len(),
    ensures
        model_forest(ts, k).len() == ts.len() - k,
        forall|i: int|
            k <= i < ts.len() ==> model_forest(ts, k)[i - k] == model_tree(#[trigger] ts[i]),
    decreases ts.len() - k,
{
    if k < ts.len() {
        lemma_model_forest_index(ts, k + 1);
        assert forall|i: int|
            k <= i < ts.len() implies model_forest(ts, k)[i - k] == model_tree(
            #[trigger] ts[i],
        ) by {
            if i > k {
                assert(model_forest(ts, k)[i - k] == model_forest(ts, k + 1)[i - (k + 1)]);
            }
        }
    }
}

/// The path segments, each as its character sequence.
pub open spec fn seg_views(segs: Seq<&'static str>) -> Seq<Seq<char>> {
    segs.map_values(|t: &'static str| t@)
}

/// Position of the first `Parent` shape named `nm`, looking from `k` on.
pub open spec fn spec_find_parent<'a>(ts: Seq<TreeModel<'a>>, nm: Seq<char>, k: nat) -> Option<
    nat,
>
    decreases ts.len() - k,
    when k <= ts.len()
{
    if k >= ts.len() {
        None
    } else if ts[k as int] is Parent && ts[k as int].name_of() == nm {
        Some(k)
    } else {
        spec_find_parent(ts, nm, k + 1)
    }
}

/// The chain of single-child parents for the segments from `idx` on, one
/// parent per segment in order, ending in a leaf for the entry.
pub open spec fn spec_chain<'a>(e: &'a Entry, segs: Seq<Seq<char>>, idx: int) -> TreeModel<'a>
    decreases segs.len() - idx,
    when 0 <= idx <= segs.len()
{
    if idx >= segs.len() {
        TreeModel::Leaf(e)
    } else {
        TreeModel::Parent { name: segs[idx], children: seq![spec_chain(e, segs, idx + 1)] }
    }
}

/// One entry inserted into a forest shape: with all segments used, a new
/// leaf at the end; into the first parent matching the next segment, the
/// rest of the entry, other siblings untouched; with no match, the fresh
/// chain at the end.
pub open spec fn spec_insert<'a>(
    ts: Seq<TreeModel<'a>>,
    e: &'a Entry,
    segs: Seq<Seq<char>>,
    idx: int,
) -> Seq<TreeModel<'a>>
    decreases segs.len() - idx,
    when 0 <= idx <= segs.len()
{
    if idx >= segs.len() {
        ts.push(TreeModel::Leaf(e))
    } else {
        match spec_find_parent(ts, segs[idx], 0) {
            None => ts.push(spec_chain(e, segs, idx)),
            Some(k) => ts.update(
                k as int,
                TreeModel::Parent {
                    name: segs[idx],
                    children: spec_insert(ts[k as int].children_of(), e, segs, idx + 1),
                },
            ),
        }
    }
}

/// The forest shape after inserting the first `n` entries, in their order,
/// each along the `::`-split segments of its module path.
pub open spec fn spec_from_entries<'a>(entries: Seq<&'a Entry>, n: int) -> Seq<TreeModel<'a>>
    decreases n,
    when 0 <= n <= entries.len()
{
    if n <= 0 {
        Seq::empty()
    } else {
        spec_insert(
            spec_from_entries(entries, n - 1),
            entries[n - 1],
            split_from(entries[n - 1].module@, 0),
            0,
        )
    }
}

/// Number of entries (leaves) in one subtree.
pub open spec fn leaf_count_tree(t: EntryTree) -> nat
    decreases t, 0nat,
{
    match t {
        EntryTree::Leaf(_) => 1,
        EntryTree::Parent { name: _, children } => leaf_count_forest(children@, 0),
    }
}

/// Number of entries (leaves) in the subtrees of `ts` from position `k` on.
pub open spec fn leaf_count_forest(ts: Seq<EntryTree>, k: nat) -> nat
    decreases ts, ts.len() - k,
    when k <= ts.len()
{
    if k >= ts.len() {
        0
    } else {
        leaf_count_tree(ts[k as int]) + leaf_count_forest(ts, k + 1)
    }
}

/// Appending a subtree adds exactly its leaves to a forest's count.
proof fn lemma_leaf_count_push(ts: Seq<EntryTree>, node: EntryTree, k: nat)
    requires
        k <= ts.len(),
    ensures
        leaf_count_forest(ts.push(node), k) == leaf_count_forest(ts, k) + leaf_count_tree(node),
    decreases ts.len() - k,
{
    assert(ts.push(node).len() == ts.len() + 1);
    if k == ts.len() {
        assert(ts.push(node)[k as int] == node);
        assert(leaf_count_forest(ts.push(node), k + 1) == 0);
    } else {
        assert(ts.push(node)[k as int] == ts[k as int]);
        lemma_leaf_count_push(ts, node, k + 1);
    }
}

/// Replacing one subtree changes a forest's count by the difference of the
/// two subtrees' counts.
proof fn lemma_leaf_count_update(ts: Seq<EntryTree>, at: nat, node: EntryTree, k: nat)
    requires
        k <= ts.len(),
        at < ts.len(),
    ensures
        k <= at ==> leaf_count_forest(ts.update(at as int, node), k) + leaf_count_tree(
            ts[at as int],
        ) == leaf_count_forest(ts, k) + leaf_count_tree(node),
        k > at ==> leaf_count_forest(ts.update(at as int, node), k) == leaf_count_forest(ts, k),
    decreases ts.len() - k,
{
    if k < ts.len() {
        lemma_leaf_count_update(ts, at, node, k + 1);
    }
}

/// Whether `a` and `b` hold the same characters.
fn str_equal(a: &str, b: &str) -> (r: bool)
    ensures
        r == (a@ == b@),
{
    let n = a.unicode_len();
    let m = b.unicode_len();
    if n != m {
        return false;
    }
    let mut i: usize = 0;
    while i < n
        invariant
            0 <= i <= n,
            n == a@.len(),
            n == b@.len(),
            forall|k: int| 0 <= k < i ==> a@[k] == b@[k],
        decreases n - i,
    {
        if a.get_char(i) != b.get_char(i) {
            return false;
        }
        i = i + 1;
    }
    proof {
        assert(a@ =~= b@);
    }
    true
}

impl<'a> EntryTree<'a> {
    /// The node's name segment.
    pub fn name(&self) -> (r: &'static str)
        ensures
            r@ == self.spec_name(),
    {
        match self {
            EntryTree::Leaf(e) => e.name,
            EntryTree::Parent { name, .. } => name,
        }
    }

    /// The node's subtrees; a leaf has none.
    pub fn children(&self) -> (r: &[EntryTree<'a>])
        ensures
            r@ == self.spec_children(),
    {
        match self {
            EntryTree::Leaf(_) => &[],
            EntryTree::Parent { children, .. } => children.as_slice(),
        }
    }

    /// Position of the first `Parent` sibling named `module` in `tree`, if
    /// any sibling carries that name.
    pub fn get_children(tree: &Vec<EntryTree<'a>>, module: &str) -> (r: Option<usize>)
        ensures
            match r {
                Some(k) => 0 <= k < tree@.len() && tree@[k as int] is Parent && tree@[
                    k as int
                ].spec_name() == module@ && spec_find_parent(model_forest(tree@, 0), module@, 0)
                    == Some(k as nat) && (forall|i: int|
                    0 <= i < k ==> !((#[trigger] tree@[i]) is Parent && tree@[i].spec_name()
                        == module@)),
                None => spec_find_parent(model_forest(tree@, 0), module@, 0) is None && (forall|
                    i: int,
                |
                    0 <= i < tree@.len() ==> !((#[trigger] tree@[i]) is Parent && tree@[
                        i
                    ].spec_name() == module@)),
            },
    {
        proof {
            lemma_model_forest_index(tree@, 0);
        }
        let ghost m = model_forest(tree@, 0);
        let n = tree.len();
        let mut k: usize = 0;
        while k < n
            invariant
                0 <= k <= n,
                n == tree@.len(),
                m == model_forest(tree@, 0),
                m.len() == n,
                forall|i: int| 0 <= i < n ==> m[i] == model_tree(#[trigger] tree@[i]),
                spec_find_parent(m, module@, 0) == spec_find_parent(m, module@, k as nat),
                forall|i: int|
                    0 <= i < k ==> !((#[trigger] tree@[i]) is Parent && tree@[i].spec_name()
                        == module@),
            decreases n - k,
        {
            match &tree[k] {
                EntryTree::Parent { name, .. } => {
                    if str_equal(name, module) {
                        proof {
                            assert(m[k as int] is Parent && m[k as int].name_of() == module@);
                            assert(spec_find_parent(m, module@, k as nat) == Some(k as nat));
                        }
                        return Some(k);
                    }
                },
                EntryTree::Leaf(_) => {
                },
            }
            proof {
                assert(!(m[k as int] is Parent && m[k as int].name_of() == module@));
                assert(spec_find_parent(m, module@, k as nat) == spec_find_parent(
                    m,
                    module@,
                    (k + 1) as nat,
                ));
            }
            k = k + 1;
        }
        None
    }

    /// Builds the chain of single-child `Parent` nodes for the path segments
    /// from `idx` on, ending in a `Leaf` for the entry.
    pub fn from_path(entry: &'a Entry, segs: &Vec<&'static str>, idx: usize) -> (r: EntryTree<'a>)
        requires
            idx <= segs@.len(),
        ensures
            wf_tree(r),
            leaf_count_tree(r) == 1,
            model_tree(r) == spec_chain(entry, seg_views(segs@), idx as int),
            idx < segs@.len() ==> r is Parent && r.spec_name() == segs@[idx as int]@,
            idx == segs@.len() ==> r is Leaf,
        decreases segs@.len() - idx,
    {
        if idx < segs.len() {
            let child = Self::from_path(entry, segs, idx + 1);
            let children = vec![child];
            let node = EntryTree::Parent { name: segs[idx], children };
            proof {
                let cs = node.spec_children();
                assert(cs[0] == child);
                assert(cs.len() == 1);
                assert(leaf_count_forest(cs, 1) == 0);
                assert(leaf_count_forest(cs, 0) == leaf_count_tree(child));
                assert(model_forest(cs, 1) =~= Seq::<TreeModel>::empty());
                assert(model_forest(cs, 0) =~= seq![model_tree(child)]);
                assert(seg_views(segs@)[idx as int] == segs@[idx as int]@);
                assert(model_tree(node) =~= spec_chain(entry, seg_views(segs@), idx as int));
            }
            node
        } else {
            EntryTree::Leaf(entry)
        }
    }

    /// Inserts one entry: walks the path segments from `idx`, descending
    /// into the existing `Parent` where one matches, and otherwise appending
    /// a fresh chain (or, with the segments exhausted, a leaf). The tree's
    /// shape afterwards is exactly `spec_insert` of its shape before, and
    /// the merge invariant is preserved.
    pub fn insert(tree: &mut Vec<EntryTree<'a>>, entry: &'a Entry, segs: &Vec<&'static str>, idx: usize)
        requires
            idx <= segs@.len(),
            wf_forest(old(tree)@),
        ensures
            wf_forest(final(tree)@),
            leaf_count_forest(final(tree)@, 0) == leaf_count_forest(old(tree)@, 0) + 1,
            old(tree)@.len() <= final(tree)@.len() <= old(tree)@.len() + 1,
            forall|i: int|
                0 <= i < old(tree)@.len() ==> (#[trigger] final(tree)@[i]).spec_name() == old(
                    tree,
                )@[i].spec_name() && (final(tree)@[i] is Parent <==> old(tree)@[i] is Parent),
            model_forest(final(tree)@, 0) == spec_insert(
                model_forest(old(tree)@, 0),
                entry,
                seg_views(segs@),
                idx as int,
            ),
        decreases segs@.len() - idx,
    {
        if idx < segs.len() {
            match Self::get_children(tree, segs[idx]) {
                Some(k) => {
                    let ghost pre = tree@;
                    let node = tree.remove(k);
                    let ghost node0 = node;
                    match node {
                        EntryTree::Parent { name, mut children } => {
                            let ghost children0 = children@;
                            proof {
                                assert(wf_tree(pre[k as int]));
                                assert(node0 == pre[k as int]);
                                assert(node0 == EntryTree::Parent { name, children });
                                assert(model_tree(pre[k as int]) == TreeModel::Parent {
                                    name: name@,
                                    children: model_forest(children0, 0),
                                });
                            }
                            Self::insert(&mut children, entry, segs, idx + 1);
                            let replaced = EntryTree::Parent { name, children };
                            tree.insert(k, replaced);
                            proof {
                                let post = tree@;
                                assert(post =~= pre.update(k as int, replaced));
                                lemma_leaf_count_update(pre, k as nat, replaced, 0);
                                assert(leaf_count_tree(replaced) == leaf_count_tree(
                                    pre[k as int],
                                ) + 1);
                                assert(replaced.spec_name() == pre[k as int].spec_name());
                                assert forall|i: int, j: int|
                                    0 <= i < j < post.len() && post[i] is Parent && post[
                                    j
                                ] is Parent implies (#[trigger] post[i]).spec_name()
                                    != (#[trigger] post[j]).spec_name() by {
                                    assert(pre[i] is Parent && pre[j] is Parent);
                                    assert(pre[i].spec_name() == post[i].spec_name());
                                    assert(pre[j].spec_name() == post[j].spec_name());
                                }
                                assert forall|i: int|
                                    0 <= i < post.len() implies wf_tree(#[trigger] post[i]) by {
                                    if i != k {
                                        assert(post[i] == pre[i]);
                                    }
                                }
                                let m = model_forest(pre, 0);
                                let sv = seg_views(segs@);
                                lemma_model_forest_index(pre, 0);
                                lemma_model_forest_index(post, 0);
                                assert(sv[idx as int] == segs@[idx as int]@);
                                assert(spec_find_parent(m, sv[idx as int], 0) == Some(k as nat));
                                assert(m[k as int] == model_tree(pre[k as int]));
                                assert(m[k as int].children_of() == model_forest(children0, 0));
                                assert(model_forest(children@, 0) == spec_insert(
                                    model_forest(children0, 0),
                                    entry,
                                    sv,
                                    idx as int + 1,
                                ));
                                assert(name@ == sv[idx as int]);
                                assert(model_tree(replaced) == TreeModel::Parent {
                                    name: name@,
                                    children: model_forest(children@, 0),
                                });
                                assert(model_tree(replaced) == TreeModel::Parent {
                                    name: sv[idx as int],
                                    children: spec_insert(
                                        m[k as int].children_of(),
                                        entry,
                                        sv,
                                        idx as int + 1,
                                    ),
                                });
                                assert forall|i: int|
                                    0 <= i < post.len() implies model_forest(post, 0)[i]
                                    == m.update(k as int, model_tree(replaced))[i] by {
                                    if i != k {
                                        assert(post[i] == pre[i]);
                                    } else {
                                        assert(post[i] == replaced);
                                    }
                                }
                                assert(model_forest(post, 0) =~= m.update(
                                    k as int,
                                    model_tree(replaced),
                                ));
                                assert(spec_insert(m, entry, sv, idx as int) == m.update(
                                    k as int,
                                    TreeModel::Parent {
                                        name: sv[idx as int],
                                        children: spec_insert(
                                            m[k as int].children_of(),
                                            entry,
                                            sv,
                                            idx as int + 1,
                                        ),
                                    },
                                ));
                            }
                        },
                        EntryTree::Leaf(e) => {
                            // Unreachable: the found sibling is a `Parent`.
                            proof {
                                assert(false);
                            }
                            tree.insert(k, EntryTree::Leaf(e));
                        },
                    }
                },
                None => {
                    let node = Self::from_path(entry, segs, idx);
                    let ghost pre = tree@;
                    tree.push(node);
                    proof {
                        let post = tree@;
                        assert(post =~= pre.push(node));
                        lemma_leaf_count_push(pre, node, 0);
                        assert forall|i: int, j: int|
                            0 <= i < j < post.len() && post[i] is Parent && post[
                            j
                        ] is Parent implies (#[trigger] post[i]).spec_name() != (#[trigger] post[
                            j
                        ]).spec_name() by {
                            if j == post.len() - 1 {
                                assert(post[i] == pre[i]);
                                assert(post[j].spec_name() == segs@[idx as int]@);
                            } else {
                                assert(post[i] == pre[i] && post[j] == pre[j]);
                            }
                        }
                        assert forall|i: int| 0 <= i < post.len() implies wf_tree(
                            #[trigger] post[i],
                        ) by {
                            if i < post.len() - 1 {
                                assert(post[i] == pre[i]);
                            }
                        }
                        let m = model_forest(pre, 0);
                        let sv = seg_views(segs@);
                        lemma_model_forest_index(pre, 0);
                        lemma_model_forest_index(post, 0);
                        assert(sv[idx as int] == segs@[idx as int]@);
                        assert(spec_find_parent(m, sv[idx as int], 0) is None);
                        assert(model_tree(node) == spec_chain(entry, sv, idx as int));
                        assert forall|i: int|
                            0 <= i < post.len() implies model_forest(post, 0)[i] == m.push(
                            model_tree(node),
                        )[i] by {
                            if i < pre.len() {
                                assert(post[i] == pre[i]);
                            } else {
                                assert(post[i] == node);
                            }
                        }
                        assert(model_forest(post, 0) =~= m.push(model_tree(node)));
                        assert(spec_insert(m, entry, sv, idx as int) == m.push(
                            spec_chain(entry, sv, idx as int),
                        ));
                    }
                },
            }
        } else {
            let ghost pre = tree@;
            tree.push(EntryTree::Leaf(entry));
            proof {
                let post = tree@;
                assert(post =~= pre.push(EntryTree::Leaf(entry)));
                lemma_leaf_count_push(pre, EntryTree::Leaf(entry), 0);
                assert forall|i: int, j: int|
                    0 <= i < j < post.len() && post[i] is Parent && post[j] is Parent implies (
                #[trigger] post[i]).spec_name() != (#[trigger] post[j]).spec_name() by {
                    assert(post[i] == pre[i] && post[j] == pre[j]);
                }
                assert forall|i: int| 0 <= i < post.len() implies wf_tree(#[trigger] post[i]) by {
                    if i < post.len() - 1 {
                        assert(post[i] == pre[i]);
                    }
                }
                let m = model_forest(pre, 0);
                lemma_model_forest_index(pre, 0);
                lemma_model_forest_index(post, 0);
                assert forall|i: int|
                    0 <= i < post.len() implies model_forest(post, 0)[i] == m.push(
                    TreeModel::Leaf(entry),
                )[i] by {
                    if i < pre.len() {
                        assert(post[i] == pre[i]);
                    } else {
                        assert(post[i] == EntryTree::Leaf(entry));
                    }
                }
                assert(model_forest(post, 0) =~= m.push(TreeModel::Leaf(entry)));
                assert(seg_views(segs@).len() == segs@.len());
                assert(spec_insert(m, entry, seg_views(segs@), idx as int) == m.push(
                    TreeModel::Leaf(entry),
                ));
            }
        }
    }

    /// Returns the maximum span for a name in `tree`: the largest, over all
    /// nodes, of the node's name length plus four columns per tree level.
    pub fn max_name_span(tree: &Vec<EntryTree<'a>>, depth: usize) -> (r: usize)
        requires
            span_forest(tree@, depth as nat, 0) <= usize::MAX,
        ensures
            r == span_forest(tree@, depth as nat, 0),
        decreases tree@,
    {
        let ghost ts = tree@;
        let ghost d = depth as nat;
        let n = tree.len();
        let mut best: usize = 0;
        let mut i: usize = 0;
        while i < n
            invariant
                0 <= i <= n,
                n == ts.len(),
                tree@ == ts,
                d == depth as nat,
                span_forest(ts, d, 0) <= usize::MAX,
                span_forest(ts, d, 0) == max_nat(best as nat, span_forest(ts, d, i as nat)),
            decreases n - i,
        {
            proof {
                lemma_span_forest_element(ts, d, 0, i as nat);
                assert(span_forest(ts, d, i as nat) == max_nat(
                    span_tree(ts[i as int], d),
                    span_forest(ts, d, i as nat + 1),
                ));
                lemma_span_forest_element(ts, d, i as nat, i as nat);
            }
            let node = &tree[i];
            let name_len = node.name().unicode_len();
            let node_span = name_len + depth * 4;
            let node_val = match node {
                EntryTree::Leaf(_) => node_span,
                EntryTree::Parent { name: _, children } => {
                    if children.len() > 0 {
                        proof {
                            lemma_span_forest_element(children@, d + 1, 0, 0);
                            assert(span_tree(children@[0], d + 1) >= (d + 1) * 4);
                        }
                        let child_max = Self::max_name_span(children, depth + 1);
                        if node_span >= child_max {
                            node_span
                        } else {
                            child_max
                        }
                    } else {
                        node_span
                    }
                },
            };
            proof {
                assert(node_val == span_tree(ts[i as int], d));
            }
            if node_val > best {
                best = node_val;
            }
            i = i + 1;
        }
        best
    }

    /// Constructs a tree from entries in the order they are supplied,
    /// merging entries that share a path prefix into one `Parent` per
    /// segment: the result's shape is exactly the fold of the insertion over
    /// the entries, each placed along the `::`-split segments of its module
    /// path, and the forest keeps the merge invariant.
    pub fn from_entries(entries: &Vec<&'a Entry>) -> (r: Vec<EntryTree<'a>>)
        ensures
            wf_forest(r@),
            leaf_count_forest(r@, 0) == entries@.len(),
            model_forest(r@, 0) == spec_from_entries(entries@, entries@.len() as int),
    {
        let mut result: Vec<EntryTree<'a>> = Vec::new();
        let mut i: usize = 0;
        proof {
            assert(wf_forest(result@));
            assert(model_forest(result@, 0) =~= spec_from_entries(entries@, 0));
        }
        while i < entries.len()
            invariant
                0 <= i <= entries@.len(),
                wf_forest(result@),
                leaf_count_forest(result@, 0) == i,
                model_forest(result@, 0) == spec_from_entries(entries@, i as int),
            decreases entries@.len() - i,
        {
            let entry = entries[i];
            let segs = entry.module_components();
            Self::insert(&mut result, entry, &segs, 0);
            proof {
                assert(entry == entries@[i as int]);
                assert(seg_views(segs@) == split_from(entries@[i as int].module@, 0));
                assert(spec_from_entries(entries@, i as int + 1) == spec_insert(
                    spec_from_entries(entries@, i as int),
                    entries@[i as int],
                    split_from(entries@[i as int].module@, 0),
                    0,
                ));
            }
            i = i + 1;
        }
        result
    }
}

} // verus!

