use vstd::prelude::*;

use crate::order::{
    insertion_sorted, item_key, key_less, lemma_insertion_sorted_items, lemma_insertion_sorted_map,
    is_sort_witness, is_stable_sort, lemma_insertion_sorted_multiset, lemma_insertion_sorted_of_ordered,
    lemma_insertion_sorted_ordered, lemma_insertion_sorted_stable, stable_sort, str_less, SortKey,
};
use crate::text::{
    copy_str, decimal, lemma_cut_to_bytes, lemma_encode_utf8_concat_len, push_char, push_decimal, cut_to_bytes, cut_to_bytes_exec, lowercase, push_str, str_eq, texts, to_chars,
    to_lowercase,
};
use crate::utils::conversion::{bytes_to_human_readable, human_bytes};
use vstd::utf8::encode_utf8;

verus! {

/// Maximum depth the walker will descend. Prevents pathological deep trees
/// from blowing up the output.
pub const MAX_WALK_DEPTH: usize = 10;

/// Maximum number of entries (files + directories) included in the tree.
/// Beyond this we stop walking and report a truncation notice.
pub const MAX_ENTRIES: usize = 5000;

/// Maximum size of the rendered output in bytes. Mirrors the 1 MB cap that
/// `read_file` enforces to keep responses within the model's context window.
pub const MAX_OUTPUT_BYTES: usize = 1000000;

/// The arguments of the `file_tree` tool.
#[derive(Debug, Clone, PartialEq, Eq)]
pub struct FileTreeToolArgs {
    pub subdirectory: Option<String>,
}

/// A node in the rendered file tree. Children are kept in insertion order,
/// and no two children of a node share a name (a `Vec` with that invariant:
/// Verus refuses an outside map type declared over the node type itself).
#[derive(Debug)]
pub struct TreeNode {
    pub name: String,
    pub is_dir: bool,
    pub size: Option<u64>,
    pub children: Vec<TreeNode>,
}

/// A tree node as plain values.
#[verifier::ext_equal]
pub struct TreeView {
    pub name: Seq<char>,
    pub is_dir: bool,
    pub size: Option<u64>,
    pub children: Seq<TreeView>,
}

/// The plain view of a node.
pub open spec fn tree_view(n: TreeNode) -> TreeView
    decreases n,
{
    TreeView {
        name: n.name@,
        is_dir: n.is_dir,
        size: n.size,
        children: Seq::new(
            n.children@.len(),
            |i: int|
                if 0 <= i < n.children@.len() {
                    tree_view(n.children@[i])
                } else {
                    new_dir_view(Seq::empty())
                },
        ),
    }
}

/// What the view of a node holds.
pub proof fn lemma_tree_view(n: TreeNode)
    ensures
        tree_view(n).name == n.name@,
        tree_view(n).is_dir == n.is_dir,
        tree_view(n).size == n.size,
        tree_view(n).children.len() == n.children@.len(),
        forall|i: int|
            0 <= i < n.children@.len() ==> #[trigger] tree_view(n).children[i] == tree_view(
                n.children@[i],
            ),
{
}

/// A new, empty directory node.
pub open spec fn new_dir_view(name: Seq<char>) -> TreeView {
    TreeView { name: name, is_dir: true, size: None, children: Seq::empty() }
}

/// A new file node.
pub open spec fn new_file_view(name: Seq<char>, size: Option<u64>) -> TreeView {
    TreeView { name: name, is_dir: false, size: size, children: Seq::empty() }
}

impl TreeNode {
    /// A new, empty directory node.
    pub fn new_dir(name: String) -> (r: Self)
        ensures
            tree_view(r) == new_dir_view(name@),
    {
        let r = Self { name, is_dir: true, size: None, children: Vec::new() };
        proof {
            lemma_tree_view(r);
        }
        assert(tree_view(r).children =~= Seq::<TreeView>::empty());
        assert(tree_view(r) == new_dir_view(r.name@));
        r
    }

    /// A new file node.
    pub fn new_file(name: String, size: Option<u64>) -> (r: Self)
        ensures
            tree_view(r) == new_file_view(name@, size),
    {
        let r = Self { name, is_dir: false, size, children: Vec::new() };
        proof {
            lemma_tree_view(r);
        }
        assert(tree_view(r).children =~= Seq::<TreeView>::empty());
        assert(tree_view(r) == new_file_view(r.name@, size));
        r
    }
}

/// The first child at or after `from` named `name`, or -1.
pub open spec fn find_child(cs: Seq<TreeView>, name: Seq<char>, from: int) -> int
    decreases cs.len() - from,
{
    if from < 0 || from >= cs.len() {
        -1
    } else if cs[from].name == name {
        from
    } else {
        find_child(cs, name, from + 1)
    }
}

/// The tree after inserting an entry below the directories `parents`
/// (missing directories are created): a directory entry is added unless a
/// child of that name exists; a file entry is added unless a child of that
/// name exists, in which case that child takes the size if it had none.
pub open spec fn insert_entry(
    t: TreeView,
    parents: Seq<Seq<char>>,
    name: Seq<char>,
    is_dir: bool,
    size: Option<u64>,
) -> TreeView
    decreases parents.len(),
{
    if parents.len() == 0 {
        let i = find_child(t.children, name, 0);
        if 0 <= i < t.children.len() {
            if !is_dir && t.children[i].size is None && size is Some {
                TreeView { children: t.children.update(i, TreeView { size: size, ..t.children[i] }), ..t }
            } else {
                t
            }
        } else {
            TreeView {
                children: t.children.push(
                    if is_dir {
                        new_dir_view(name)
                    } else {
                        new_file_view(name, size)
                    },
                ),
                ..t
            }
        }
    } else {
        let p = parents[0];
        let i = find_child(t.children, p, 0);
        let found = 0 <= i < t.children.len();
        let cs = if found {
            t.children
        } else {
            t.children.push(new_dir_view(p))
        };
        let j = if found {
            i
        } else {
            t.children.len() as int
        };
        TreeView {
            children: cs.update(j, insert_entry(cs[j], parents.drop_first(), name, is_dir, size)),
            ..t
        }
    }
}

/// The index of the first child of `node` named `name`, if any.
fn find_child_exec(node: &TreeNode, name: &str) -> (r: Option<usize>)
    ensures
        match r {
            Some(i) => i < node.children@.len() && i == find_child(tree_view(*node).children, name@, 0),
            None => find_child(tree_view(*node).children, name@, 0) == -1,
        },
{
    let ghost cs = tree_view(*node).children;
    let mut i: usize = 0;
    while i < node.children.len()
        invariant
            i <= node.children@.len(),
            cs == tree_view(*node).children,
            cs.len() == node.children@.len(),
            find_child(cs, name@, 0) == find_child(cs, name@, i as int),
        decreases node.children.len() - i,
    {
        assert(cs[i as int] == tree_view(node.children@[i as int]));
        if str_eq(node.children[i].name.as_str(), name) {
            return Some(i);
        }
        i = i + 1;
    }
    None
}

/// Inserts an entry whose parent directories are `parents[k..]`.
fn insert_at(
    node: &mut TreeNode,
    parents: &Vec<String>,
    k: usize,
    file_name: &str,
    is_dir: bool,
    size: Option<u64>,
)
    requires
        k <= parents@.len(),
    ensures
        tree_view(*final(node)) == insert_entry(
            tree_view(*old(node)),
            texts(parents@).skip(k as int),
            file_name@,
            is_dir,
            size,
        ),
    decreases parents@.len() - k,
{
    let ghost old_view = tree_view(*node);
    let ghost ps = texts(parents@).skip(k as int);
    proof {
        lemma_tree_view(*node);
    }
    if k == parents.len() {
        assert(ps.len() == 0);
        match find_child_exec(node, file_name) {
            Some(i) => {
                if !is_dir && node.children[i].size.is_none() && size.is_some() {
                    let ghost before = node.children@;
                    node.children[i].size = size;
                    assert(node.children@ == before.update(i as int, TreeNode { size: size, ..before[i as int] }));
                    proof {
                        lemma_tree_view(node.children@[i as int]);
                        lemma_tree_view(before[i as int]);
                        lemma_tree_view(*node);
                        assert(old_view.children[i as int] == tree_view(before[i as int]));
                        assert(tree_view(node.children@[i as int]).children =~= tree_view(
                            before[i as int],
                        ).children);
                    }
                    assert(tree_view(node.children@[i as int]) =~= TreeView {
                        size: size,
                        ..old_view.children[i as int]
                    });
                    assert(tree_view(*node).children =~= old_view.children.update(
                        i as int,
                        TreeView { size: size, ..old_view.children[i as int] },
                    ));
                }
            },
            None => {
                let ghost before = node.children@;
                let child = if is_dir {
                    TreeNode::new_dir(copy_str(file_name))
                } else {
                    TreeNode::new_file(copy_str(file_name), size)
                };
                node.children.push(child);
                proof {
                    lemma_tree_view(*node);
                }
                assert(tree_view(*node).children =~= old_view.children.push(tree_view(child)));
            },
        }
        assert(tree_view(*node) =~= insert_entry(old_view, ps, file_name@, is_dir, size));
    } else {
        let name = parents[k].as_str();
        assert(ps[0] == parents@[k as int]@);
        let j = match find_child_exec(node, name) {
            Some(i) => i,
            None => {
                node.children.push(TreeNode::new_dir(copy_str(name)));
                node.children.len() - 1
            },
        };
        let ghost mid = tree_view(*node);
        proof {
            lemma_tree_view(*node);
        }
        assert(mid.children =~= (if 0 <= find_child(old_view.children, ps[0], 0)
            < old_view.children.len() {
            old_view.children
        } else {
            old_view.children.push(new_dir_view(ps[0]))
        }));
        assert(texts(parents@).skip(k as int).drop_first() == texts(parents@).skip(k + 1));
        let ghost before = node.children@;
        insert_at(&mut node.children[j], parents, k + 1, file_name, is_dir, size);
        assert(node.children@ == before.update(j as int, node.children@[j as int]));
        proof {
            lemma_tree_view(*node);
        }
        assert(tree_view(*node).children =~= mid.children.update(
            j as int,
            tree_view(node.children@[j as int]),
        ));
        assert(tree_view(*node) =~= insert_entry(old_view, ps, file_name@, is_dir, size));
    }
}

/// Insert a new entry into the tree, creating intermediate directory nodes
/// as needed; `parents` are the directories between the root and the entry.
pub fn insert_into_tree(
    root: &mut TreeNode,
    parents: &Vec<String>,
    file_name: &str,
    is_dir: bool,
    size: Option<u64>,
)
    ensures
        tree_view(*final(root)) == insert_entry(
            tree_view(*old(root)),
            texts(parents@),
            file_name@,
            is_dir,
            size,
        ),
{
    assert(texts(parents@).skip(0) == texts(parents@));
    insert_at(root, parents, 0, file_name, is_dir, size);
}


/// Directories sort before files; within each, names compare in lowercase.
pub open spec fn child_key(t: TreeView) -> (u8, Seq<char>) {
    (if t.is_dir {
        0u8
    } else {
        1u8
    }, lowercase(t.name))
}

/// `child_key` as a function value.
pub open spec fn child_order() -> spec_fn(TreeView) -> (u8, Seq<char>) {
    |c: TreeView| child_key(c)
}

/// The children of a node, each with its own levels sorted.
pub open spec fn sorted_subtrees(t: TreeView) -> Seq<TreeView>
    decreases t, 0int,
{
    Seq::new(
        t.children.len(),
        |i: int|
            if 0 <= i < t.children.len() {
                sorted_tree(t.children[i])
            } else {
                new_dir_view(Seq::empty())
            },
    )
}

/// The tree with every level's children sorted by `child_key` (stably:
/// children that compare equal keep their order).
pub open spec fn sorted_tree(t: TreeView) -> TreeView
    decreases t, 1int,
{
    TreeView { children: insertion_sorted(sorted_subtrees(t), child_order()), ..t }
}

/// The sort key of a node.
fn node_sort_key(n: &TreeNode) -> (k: SortKey)
    ensures
        k@ == child_key(tree_view(*n)),
{
    proof {
        lemma_tree_view(*n);
    }
    let lower = to_lowercase(n.name.as_str());
    SortKey {
        rank: if n.is_dir {
            0
        } else {
            1
        },
        text: to_chars(lower.as_str()),
    }
}

/// Recursively sort children: directories first, then files, both
/// alphabetically (case-insensitive).
pub fn sort_children(node: &mut TreeNode)
    ensures
        tree_view(*final(node)) == sorted_tree(tree_view(*old(node))),
    decreases *old(node),
{
    let ghost old_node = *node;
    let ghost old_view = tree_view(*node);
    proof {
        lemma_tree_view(*node);
    }
    let mut children: Vec<TreeNode> = Vec::new();
    std::mem::swap(&mut children, &mut node.children);
    let ghost orig = children@;
    assert(orig == old_node.children@);
    let mut keyed: Vec<(SortKey, TreeNode)> = Vec::new();
    let n = children.len();
    let mut i: usize = 0;
    while i < n
        invariant
            n == orig.len(),
            old_node == *old(node),
            orig == old_node.children@,
            old_view == tree_view(old_node),
            old_view.children.len() == n,
            forall|k: int| 0 <= k < n ==> #[trigger] old_view.children[k] == tree_view(orig[k]),
            i <= n,
            children@ == orig.skip(i as int),
            keyed@.len() == i,
            forall|k: int|
                0 <= k < i ==> tree_view((#[trigger] keyed@[k]).1) == sorted_tree(
                    tree_view(orig[k]),
                ) && keyed@[k].0@ == child_key(tree_view(keyed@[k].1)),
        decreases n - i,
    {
        let mut child = children.remove(0);
        assert(orig.skip(i as int)[0] == orig[i as int]);
        assert(orig.skip(i as int).remove(0) == orig.skip(i + 1));
        assert(child == old_node.children@[i as int]);
        proof {
            assert(decreases_to!(old_node => old_node.children));
            assert(decreases_to!(old_node.children => old_node.children@));
            assert(decreases_to!(old_node.children@ => old_node.children@[i as int]));
        }
        sort_children(&mut child);
        let key = node_sort_key(&child);
        keyed.push((key, child));
        i = i + 1;
    }
    let ghost a = keyed@;
    let sorted = stable_sort(keyed);
    let ghost sorted_view = sorted@;
    let mut result: Vec<TreeNode> = Vec::new();
    let mut rest = sorted;
    let m = rest.len();
    let mut j: usize = 0;
    while j < m
        invariant
            m == sorted_view.len(),
            j <= m,
            rest@ == sorted_view.skip(j as int),
            result@.len() == j,
            forall|k: int| 0 <= k < j ==> #[trigger] result@[k] == sorted_view[k].1,
        decreases m - j,
    {
        let (_, c) = rest.remove(0);
        assert(sorted_view.skip(j as int)[0] == sorted_view[j as int]);
        assert(sorted_view.skip(j as int).remove(0) == sorted_view.skip(j + 1));
        result.push(c);
        j = j + 1;
    }
    node.children = result;
    proof {
        let ka = |x: (SortKey, TreeNode)| item_key(x);
        let g = |x: (SortKey, TreeNode)| tree_view(x.1);
        let kb = child_order();
        assert forall|k: int| 0 <= k < a.len() implies ka(a[k]) == kb(g(#[trigger] a[k])) by {}
        lemma_insertion_sorted_map(a, ka, g, kb);
        let mapped = sorted_subtrees(old_view);
        assert(a.map_values(g) =~= mapped);
        lemma_tree_view(*node);
        assert(tree_view(*node).children =~= sorted_view.map_values(g));
        assert(tree_view(*node) =~= sorted_tree(old_view));
    }
}


/// Whether `out` is longer than `MAX_OUTPUT_BYTES` bytes of UTF-8.
pub open spec fn over_output_limit(out: Seq<char>) -> bool {
    (encode_utf8(out).len() as usize) > MAX_OUTPUT_BYTES
}

/// The branch drawn before an entry.
pub open spec fn connector(is_last: bool) -> Seq<char> {
    if is_last {
        "\u{2514}\u{2500}\u{2500} "@
    } else {
        "\u{251c}\u{2500}\u{2500} "@
    }
}

/// What continues the prefix below an entry.
pub open spec fn child_prefix(is_last: bool) -> Seq<char> {
    if is_last {
        "    "@
    } else {
        "\u{2502}   "@
    }
}

/// `out` followed by the line of entry `c`: the prefix, the branch, the
/// name, then `/` for a directory or ` [size]` for a file of known size.
pub open spec fn entry_line(out: Seq<char>, prefix: Seq<char>, is_last: bool, c: TreeView) -> Seq<char> {
    let base = out + prefix + connector(is_last) + c.name;
    let labeled = if c.is_dir {
        base.push('/')
    } else if c.size is Some {
        base + " ["@ + human_bytes(c.size->0 as nat) + "]"@
    } else {
        base
    };
    labeled.push('\n')
}

/// `out` followed by the rendering of the children of `t` below `prefix`;
/// nothing is added when `out` is already over the output limit.
pub open spec fn render_level(t: TreeView, prefix: Seq<char>, out: Seq<char>) -> Seq<char>
    decreases t, 1int, 0int,
{
    if over_output_limit(out) {
        out
    } else {
        render_entries(t, prefix, out, 0)
    }
}

/// `out` followed by the rendering of the children of `t` from the `i`-th
/// on; a non-empty directory is followed by its own children, one level
/// deeper.
pub open spec fn render_entries(t: TreeView, prefix: Seq<char>, out: Seq<char>, i: int) -> Seq<char>
    decreases t, 0int, t.children.len() - i,
{
    if i < 0 || i >= t.children.len() {
        out
    } else {
        let c = t.children[i];
        let is_last = i == t.children.len() - 1;
        let out1 = entry_line(out, prefix, is_last, c);
        let out2 = if c.is_dir && c.children.len() > 0 {
            render_level(c, prefix + child_prefix(is_last), out1)
        } else {
            out1
        };
        render_entries(t, prefix, out2, i + 1)
    }
}

/// Appends the rendering of the children of `node` below `prefix`.
fn render_children(node: &TreeNode, prefix: &str, output: &mut String)
    ensures
        final(output)@ == render_level(tree_view(*node), prefix@, old(output)@),
    decreases node,
{
    let ghost tv = tree_view(*node);
    let ghost start = output@;
    proof {
        lemma_tree_view(*node);
    }
    if output.as_str().len() > MAX_OUTPUT_BYTES {
        return;
    }
    let n = node.children.len();
    let mut i: usize = 0;
    while i < n
        invariant
            i <= n,
            n == node.children@.len(),
            tv == tree_view(*node),
            tv.children.len() == n,
            forall|k: int| 0 <= k < n ==> #[trigger] tv.children[k] == tree_view(node.children@[k]),
            render_entries(tv, prefix@, output@, i as int) == render_entries(tv, prefix@, start, 0),
        decreases n - i,
    {
        let child = &node.children[i];
        let is_last = i == n - 1;
        let ghost before = output@;
        let ghost cv = tree_view(*child);
        proof {
            lemma_tree_view(*child);
        }
        push_str(output, prefix);
        push_str(
            output,
            if is_last {
                "\u{2514}\u{2500}\u{2500} "
            } else {
                "\u{251c}\u{2500}\u{2500} "
            },
        );
        push_str(output, child.name.as_str());
        if child.is_dir {
            push_char(output, '/');
        } else {
            match child.size {
                Some(size) => {
                    push_str(output, " [");
                    let human = bytes_to_human_readable(size);
                    push_str(output, human.as_str());
                    push_str(output, "]");
                },
                None => {},
            }
        }
        push_char(output, '\n');
        assert(output@ == entry_line(before, prefix@, is_last, cv));
        if child.is_dir && child.children.len() > 0 {
            let mut new_prefix = copy_str(prefix);
            push_str(
                &mut new_prefix,
                if is_last {
                    "    "
                } else {
                    "\u{2502}   "
                },
            );
            proof {
                assert(decreases_to!(*node => node.children));
                assert(decreases_to!(node.children => node.children@));
                assert(decreases_to!(node.children@ => node.children@[i as int]));
            }
            render_children(child, new_prefix.as_str(), output);
        }
        i = i + 1;
    }
}

/// The truncation notice for a walk that stopped early.
pub open spec fn entries_notice() -> Seq<char> {
    "\n... truncated: exceeded "@ + decimal(MAX_ENTRIES as nat) + " entries or "@ + decimal(
        MAX_OUTPUT_BYTES as nat,
    ) + " bytes.\n"@
}

/// The truncation notice for an output that was cut.
pub open spec fn bytes_notice() -> Seq<char> {
    "\n... truncated: output exceeded "@ + decimal(MAX_OUTPUT_BYTES as nat) + " bytes.\n"@
}

/// The rendered tree: the root's name on a line of its own, then its
/// children. A rendering over `MAX_OUTPUT_BYTES` bytes is cut to that many
/// bytes at a character boundary. A walk that stopped early then gets the
/// entries notice; otherwise a cut rendering gets the bytes notice.
pub open spec fn rendered_tree(t: TreeView, truncated: bool) -> Seq<char> {
    let body = render_level(t, Seq::empty(), t.name.push('\n'));
    let kept = if over_output_limit(body) {
        cut_to_bytes(body, MAX_OUTPUT_BYTES as nat)
    } else {
        body
    };
    if truncated {
        kept + entries_notice()
    } else if over_output_limit(body) {
        kept + bytes_notice()
    } else {
        body
    }
}

/// The rendered tree takes at most `MAX_OUTPUT_BYTES` bytes besides its
/// notice, whether or not the walk stopped early (for any rendering a
/// `String` can hold).
pub proof fn lemma_rendered_tree_bounded(t: TreeView, truncated: bool)
    requires
        encode_utf8(render_level(t, Seq::empty(), t.name.push('\n'))).len() <= usize::MAX,
    ensures
        encode_utf8(rendered_tree(t, truncated)).len() <= MAX_OUTPUT_BYTES + encode_utf8(
            if truncated {
                entries_notice()
            } else {
                bytes_notice()
            },
        ).len(),
{
    let body = render_level(t, Seq::empty(), t.name.push('\n'));
    lemma_cut_to_bytes(body, MAX_OUTPUT_BYTES as nat);
    let kept = if over_output_limit(body) {
        cut_to_bytes(body, MAX_OUTPUT_BYTES as nat)
    } else {
        body
    };
    assert(encode_utf8(kept).len() <= MAX_OUTPUT_BYTES);
    lemma_encode_utf8_concat_len(kept, entries_notice());
    lemma_encode_utf8_concat_len(kept, bytes_notice());
}

/// `a` begins `b` and `b` begins `c`, so `a` begins `c`.
proof fn lemma_prefix_trans(a: Seq<char>, b: Seq<char>, c: Seq<char>)
    requires
        a.is_prefix_of(b),
        b.is_prefix_of(c),
    ensures
        a.is_prefix_of(c),
{
    assert forall|i: int| 0 <= i < a.len() implies c[i] == a[i] by {
        assert(b.subrange(0, a.len() as int)[i] == a[i]);
        assert(c.subrange(0, b.len() as int)[i] == b[i]);
    }
    assert(c.subrange(0, a.len() as int) =~= a);
}

/// A text that begins another takes no more bytes than it.
proof fn lemma_prefix_utf8_len(a: Seq<char>, b: Seq<char>)
    requires
        a.is_prefix_of(b),
    ensures
        encode_utf8(a).len() <= encode_utf8(b).len(),
{
    assert(b =~= a + b.skip(a.len() as int));
    lemma_encode_utf8_concat_len(a, b.skip(a.len() as int));
}

/// Rendering a level only appends to what was already written.
proof fn lemma_render_level_extends(t: TreeView, prefix: Seq<char>, out: Seq<char>)
    ensures
        out.is_prefix_of(render_level(t, prefix, out)),
    decreases t, 1int, 0int,
{
    if over_output_limit(out) {
        assert(render_level(t, prefix, out).subrange(0, out.len() as int) =~= out);
    } else {
        lemma_render_entries_extends(t, prefix, out, 0);
    }
}

/// Rendering entries only appends to what was already written.
proof fn lemma_render_entries_extends(t: TreeView, prefix: Seq<char>, out: Seq<char>, i: int)
    ensures
        out.is_prefix_of(render_entries(t, prefix, out, i)),
    decreases t, 0int, t.children.len() - i,
{
    if i < 0 || i >= t.children.len() {
        assert(render_entries(t, prefix, out, i).subrange(0, out.len() as int) =~= out);
    } else {
        let c = t.children[i];
        let is_last = i == t.children.len() - 1;
        let out1 = entry_line(out, prefix, is_last, c);
        lemma_entry_line_extends(out, prefix, is_last, c);
        let out2 = if c.is_dir && c.children.len() > 0 {
            lemma_render_level_extends(c, prefix + child_prefix(is_last), out1);
            lemma_prefix_trans(out, out1, render_level(c, prefix + child_prefix(is_last), out1));
            render_level(c, prefix + child_prefix(is_last), out1)
        } else {
            out1
        };
        lemma_render_entries_extends(t, prefix, out2, i + 1);
        lemma_prefix_trans(out, out2, render_entries(t, prefix, out2, i + 1));
    }
}

/// An entry's line starts with what was written before, the prefix, the
/// branch and the name.
proof fn lemma_entry_line_extends(out: Seq<char>, prefix: Seq<char>, is_last: bool, c: TreeView)
    ensures
        (out + prefix + connector(is_last) + c.name).is_prefix_of(entry_line(out, prefix, is_last, c)),
        out.is_prefix_of(entry_line(out, prefix, is_last, c)),
        c.is_dir ==> entry_line(out, prefix, is_last, c) == out + prefix + connector(is_last) + c.name
            + "/\n"@,
{
    let base = out + prefix + connector(is_last) + c.name;
    let line = entry_line(out, prefix, is_last, c);
    reveal_strlit("/\n");
    reveal_strlit(" [");
    reveal_strlit("]");
    assert(line.subrange(0, base.len() as int) =~= base);
    assert(line.subrange(0, out.len() as int) =~= out);
    if c.is_dir {
        assert(line =~= base + "/\n"@);
    }
}

/// The label after an entry's name: `/` for a directory, ` [size]` for a
/// file of known size, nothing otherwise.
pub open spec fn entry_label(c: TreeView) -> Seq<char> {
    if c.is_dir {
        "/"@
    } else if c.size is Some {
        " ["@ + human_bytes(c.size->0 as nat) + "]"@
    } else {
        Seq::empty()
    }
}

proof fn lemma_entry_line_is(out: Seq<char>, prefix: Seq<char>, is_last: bool, c: TreeView)
    ensures
        entry_line(out, prefix, is_last, c) == out + prefix + (if is_last {
            "\u{2514}\u{2500}\u{2500} "@
        } else {
            "\u{251c}\u{2500}\u{2500} "@
        }) + c.name + entry_label(c) + "\n"@,
{
    reveal_strlit("/");
    reveal_strlit("\n");
    let base = out + prefix + connector(is_last) + c.name;
    if c.is_dir {
        assert(base.push('/').push('\n') =~= base + "/"@ + "\n"@);
    } else if c.size is Some {
        assert((base + " ["@ + human_bytes(c.size->0 as nat) + "]"@).push('\n') =~= base + entry_label(c)
            + "\n"@);
    } else {
        assert(base.push('\n') =~= base + Seq::<char>::empty() + "\n"@);
    }
}

/// The first entry of a level is drawn right after what was written: the
/// level's prefix, the branch (`└── ` when it is the only entry, else
/// `├── `), its name and its label, on a line of its own.
pub proof fn lemma_render_first_entry(t: TreeView, prefix: Seq<char>, out: Seq<char>)
    requires
        !over_output_limit(out),
        t.children.len() > 0,
    ensures
        (out + prefix + (if t.children.len() == 1 {
            "\u{2514}\u{2500}\u{2500} "@
        } else {
            "\u{251c}\u{2500}\u{2500} "@
        }) + t.children[0].name + entry_label(t.children[0]) + "\n"@).is_prefix_of(
            render_level(t, prefix, out),
        ),
{
    let c = t.children[0];
    let last = t.children.len() == 1;
    let out1 = entry_line(out, prefix, last, c);
    lemma_entry_line_is(out, prefix, last, c);
    let out2 = if c.is_dir && c.children.len() > 0 {
        lemma_render_level_extends(c, prefix + child_prefix(last), out1);
        render_level(c, prefix + child_prefix(last), out1)
    } else {
        assert(out1.is_prefix_of(out1)) by {
            assert(out1.subrange(0, out1.len() as int) =~= out1);
        }
        out1
    };
    lemma_render_entries_extends(t, prefix, out2, 1);
    lemma_prefix_trans(out1, out2, render_level(t, prefix, out));
}

/// Rendering entries `i` on can be seen as rendering entries `j` on after
/// some output, for `i <= j`.
proof fn lemma_render_entries_skip(t: TreeView, prefix: Seq<char>, out: Seq<char>, i: int, j: int)
    requires
        0 <= i <= j <= t.children.len(),
    ensures
        exists|x: Seq<char>| render_entries(t, prefix, out, i) == #[trigger] render_entries(t, prefix, x, j),
    decreases j - i,
{
    if i == j {
        assert(render_entries(t, prefix, out, i) == render_entries(t, prefix, out, j));
    } else {
        assert(render_entries(t, prefix, out, i) == render_entries(
            t,
            prefix,
            if t.children[i].is_dir && t.children[i].children.len() > 0 {
                render_level(
                    t.children[i],
                    prefix + child_prefix(i == t.children.len() - 1),
                    entry_line(out, prefix, i == t.children.len() - 1, t.children[i]),
                )
            } else {
                entry_line(out, prefix, i == t.children.len() - 1, t.children[i])
            },
            i + 1,
        ));
        let c = t.children[i];
        let is_last = i == t.children.len() - 1;
        let out1 = entry_line(out, prefix, is_last, c);
        let out2 = if c.is_dir && c.children.len() > 0 {
            render_level(c, prefix + child_prefix(is_last), out1)
        } else {
            out1
        };
        lemma_render_entries_skip(t, prefix, out2, i + 1, j);
    }
}

/// The last entry of a level, when it has nothing below it, ends the
/// level's rendering: the level's prefix, the branch `└── `, its name and
/// its label, on a line of its own.
pub proof fn lemma_render_last_entry(t: TreeView, prefix: Seq<char>, out: Seq<char>)
    requires
        !over_output_limit(out),
        t.children.len() > 0,
        !(t.children.last().is_dir && t.children.last().children.len() > 0),
    ensures
        ({
            let r = render_level(t, prefix, out);
            let line = prefix + "\u{2514}\u{2500}\u{2500} "@ + t.children.last().name + entry_label(
                t.children.last(),
            ) + "\n"@;
            &&& r.len() >= line.len()
            &&& r.subrange(r.len() - line.len(), r.len() as int) == line
        }),
{
    let n = t.children.len() as int;
    let c = t.children[n - 1];
    lemma_render_entries_skip(t, prefix, out, 0, n - 1);
    let x = choose|x: Seq<char>| render_entries(t, prefix, out, 0) == #[trigger] render_entries(t, prefix, x, n - 1);
    lemma_entry_line_is(x, prefix, true, c);
    let line = prefix + "\u{2514}\u{2500}\u{2500} "@ + c.name + entry_label(c) + "\n"@;
    let r = render_level(t, prefix, out);
    let e = entry_line(x, prefix, true, c);
    assert(render_entries(t, prefix, e, n) == e);
    assert(render_entries(t, prefix, x, n - 1) == render_entries(t, prefix, e, n));
    assert(r == e);
    assert(r =~= x + line);
    assert(r.subrange(r.len() - line.len(), r.len() as int) =~= line);
}

/// Each level of the tree is drawn one four-column step to the right of its
/// parent: below a directory's line, its first child's line carries the
/// directory's own prefix, then four spaces when the directory is the last
/// entry of its level (else a vertical bar and three spaces), then the
/// child's branch (`└── ` for a last entry, else `├── `) and name. The
/// directory's own line is its prefix, its branch, its name and `/`.
pub proof fn lemma_render_nesting(t: TreeView, prefix: Seq<char>, out: Seq<char>)
    requires
        !over_output_limit(out),
        t.children.len() > 0,
        t.children[0].is_dir,
        t.children[0].children.len() > 0,
        !over_output_limit(
            out + prefix + (if t.children.len() == 1 {
                "\u{2514}\u{2500}\u{2500} "@
            } else {
                "\u{251c}\u{2500}\u{2500} "@
            }) + t.children[0].name + "/\n"@,
        ),
    ensures
        ({
            let c = t.children[0];
            let g = c.children[0];
            let dir_line = out + prefix + (if t.children.len() == 1 {
                "\u{2514}\u{2500}\u{2500} "@
            } else {
                "\u{251c}\u{2500}\u{2500} "@
            }) + c.name + "/\n"@;
            (dir_line + prefix + (if t.children.len() == 1 {
                "    "@
            } else {
                "\u{2502}   "@
            }) + (if c.children.len() == 1 {
                "\u{2514}\u{2500}\u{2500} "@
            } else {
                "\u{251c}\u{2500}\u{2500} "@
            }) + g.name).is_prefix_of(render_level(t, prefix, out))
        }),
{
    let c = t.children[0];
    let g = c.children[0];
    let last = t.children.len() == 1;
    let out1 = entry_line(out, prefix, last, c);
    lemma_entry_line_extends(out, prefix, last, c);
    let p2 = prefix + child_prefix(last);
    let glast = c.children.len() == 1;
    let gline = entry_line(out1, p2, glast, g);
    lemma_entry_line_extends(out1, p2, glast, g);
    let out3 = if g.is_dir && g.children.len() > 0 {
        lemma_render_level_extends(g, p2 + child_prefix(glast), gline);
        lemma_prefix_trans(
            out1 + p2 + connector(glast) + g.name,
            gline,
            render_level(g, p2 + child_prefix(glast), gline),
        );
        render_level(g, p2 + child_prefix(glast), gline)
    } else {
        gline
    };
    let out2 = render_level(c, p2, out1);
    assert(out2 == render_entries(c, p2, out3, 1));
    lemma_render_entries_extends(c, p2, out3, 1);
    lemma_prefix_trans(out1 + p2 + connector(glast) + g.name, out3, out2);
    assert(render_level(t, prefix, out) == render_entries(t, prefix, out2, 1));
    lemma_render_entries_extends(t, prefix, out2, 1);
    lemma_prefix_trans(out1 + p2 + connector(glast) + g.name, out2, render_level(t, prefix, out));
    assert(out1 + p2 + connector(glast) + g.name =~= out1 + prefix + child_prefix(last) + connector(
        glast,
    ) + g.name);
}

/// The same step as seen in the whole rendering: the root's name, the first
/// entry's line, then its first child's line one step to the right (for a
/// rendering that the output limit does not cut).
pub proof fn lemma_rendered_tree_nesting(t: TreeView, truncated: bool)
    requires
        encode_utf8(render_level(t, Seq::empty(), t.name.push('\n'))).len() <= MAX_OUTPUT_BYTES,
        t.children.len() > 0,
        t.children[0].is_dir,
        t.children[0].children.len() > 0,
    ensures
        ({
            let c = t.children[0];
            let g = c.children[0];
            (t.name + "\n"@ + (if t.children.len() == 1 {
                "\u{2514}\u{2500}\u{2500} "@
            } else {
                "\u{251c}\u{2500}\u{2500} "@
            }) + c.name + "/\n"@ + (if t.children.len() == 1 {
                "    "@
            } else {
                "\u{2502}   "@
            }) + (if c.children.len() == 1 {
                "\u{2514}\u{2500}\u{2500} "@
            } else {
                "\u{251c}\u{2500}\u{2500} "@
            }) + g.name).is_prefix_of(rendered_tree(t, truncated))
        }),
{
    let out = t.name.push('\n');
    let body = render_level(t, Seq::empty(), out);
    let c = t.children[0];
    let last = t.children.len() == 1;
    reveal_strlit("\n");
    assert(out =~= t.name + "\n"@);
    lemma_render_level_extends(t, Seq::empty(), out);
    lemma_prefix_utf8_len(out, body);
    let dir_line = entry_line(out, Seq::empty(), last, c);
    lemma_entry_line_extends(out, Seq::empty(), last, c);
    let out2 = render_level(c, Seq::empty() + child_prefix(last), dir_line);
    lemma_render_level_extends(c, Seq::empty() + child_prefix(last), dir_line);
    assert(body == render_entries(t, Seq::empty(), out2, 1));
    lemma_render_entries_extends(t, Seq::empty(), out2, 1);
    lemma_prefix_trans(dir_line, out2, body);
    lemma_prefix_utf8_len(dir_line, body);
    lemma_render_nesting(t, Seq::empty(), out);
    let want = dir_line + Seq::<char>::empty() + child_prefix(last) + connector(
        c.children.len() == 1,
    ) + c.children[0].name;
    if truncated {
        assert(body.is_prefix_of(rendered_tree(t, truncated))) by {
            assert(rendered_tree(t, truncated).subrange(0, body.len() as int) =~= body);
        }
        lemma_prefix_trans(want, body, rendered_tree(t, truncated));
    }
    assert(dir_line + Seq::<char>::empty() =~= dir_line);
}

/// The `file_tree` tool.
#[derive(Debug)]
pub struct FileTreeTool {}

impl FileTreeTool {
    pub fn new() -> Self {
        Self {}
    }

    /// The name the model calls the tool by.
    pub fn name(&self) -> (r: &'static str)
        ensures
            r@ == "file_tree"@,
    {
        "file_tree"
    }

    /// What the tool does, for the model.
    pub fn description(&self) -> (r: &'static str)
        ensures
            r@ == "Output a recursive file tree of the current directory. Files and directories ignored by .gitignore (and other ignore files) are excluded. Directories are shown with a trailing slash and files include their size. Output is truncated at 1 MB or 5,000 entries or 10 levels of depth, whichever comes first."@,
    {
        "Output a recursive file tree of the current directory. Files and directories ignored by .gitignore (and other ignore files) are excluded. Directories are shown with a trailing slash and files include their size. Output is truncated at 1 MB or 5,000 entries or 10 levels of depth, whichever comes first."
    }

    /// The parameters the model must pass: none.
    pub fn required_parameters(&self) -> (r: Vec<&'static str>)
        ensures
            r@.len() == 0,
    {
        Vec::new()
    }

    /// Render a tree node as a human-readable string.
    pub fn render_tree(node: &TreeNode, truncated: bool) -> (r: String)
        ensures
            r@ == rendered_tree(tree_view(*node), truncated),
    {
        proof {
            lemma_tree_view(*node);
        }
        let mut output = copy_str(node.name.as_str());
        push_char(&mut output, '\n');
        let empty = String::new();
        render_children(node, empty.as_str(), &mut output);
        let over = output.as_str().len() > MAX_OUTPUT_BYTES;
        if over {
            output = cut_to_bytes_exec(output.as_str(), MAX_OUTPUT_BYTES);
        }
        if truncated {
            push_str(&mut output, "\n... truncated: exceeded ");
            push_decimal(&mut output, MAX_ENTRIES as u128);
            push_str(&mut output, " entries or ");
            push_decimal(&mut output, MAX_OUTPUT_BYTES as u128);
            push_str(&mut output, " bytes.\n");
        } else if over {
            push_str(&mut output, "\n... truncated: output exceeded ");
            push_decimal(&mut output, MAX_OUTPUT_BYTES as u128);
            push_str(&mut output, " bytes.\n");
        }
        output
    }
}

/// The one-line summary of a `file_tree` call: the subdirectory (or `.`),
/// and the limits when the walk stopped early.
pub open spec fn file_tree_summary_text(subdirectory: Option<Seq<char>>, truncated: bool) -> Seq<char> {
    let label = match subdirectory {
        Some(s) => s,
        None => "."@,
    };
    let head = "file_tree: "@ + label;
    if truncated {
        head + " (truncated at "@ + decimal(MAX_ENTRIES as nat) + " entries / "@ + decimal(
            MAX_OUTPUT_BYTES as nat,
        ) + " bytes)"@
    } else {
        head
    }
}

/// The one-line summary of a `file_tree` call.
pub fn file_tree_summary(subdirectory: Option<&str>, truncated: bool) -> (r: String)
    ensures
        r@ == file_tree_summary_text(
            match subdirectory {
                Some(s) => Some(s@),
                None => None,
            },
            truncated,
        ),
{
    let mut out = String::new();
    push_str(&mut out, "file_tree: ");
    match subdirectory {
        Some(s) => push_str(&mut out, s),
        None => push_str(&mut out, "."),
    }
    if truncated {
        push_str(&mut out, " (truncated at ");
        push_decimal(&mut out, MAX_ENTRIES as u128);
        push_str(&mut out, " entries / ");
        push_decimal(&mut out, MAX_OUTPUT_BYTES as u128);
        push_str(&mut out, " bytes)");
    }
    out
}

/// The state of a tree being built from a walk.
pub struct FileTreeBuilderView {
    pub tree: TreeView,
    pub entries: nat,
    pub truncated: bool,
}

/// Builds a file tree from the entries of a walk, in walk order, up to
/// `MAX_ENTRIES` entries.
pub struct FileTreeBuilder {
    root: TreeNode,
    entries: usize,
    truncated: bool,
}

impl View for FileTreeBuilder {
    type V = FileTreeBuilderView;

    closed spec fn view(&self) -> FileTreeBuilderView {
        FileTreeBuilderView {
            tree: tree_view(self.root),
            entries: self.entries as nat,
            truncated: self.truncated,
        }
    }
}

impl FileTreeBuilder {
    /// A builder whose root directory is named `root_name`.
    pub fn new(root_name: String) -> (r: Self)
        ensures
            r@.tree == new_dir_view(root_name@),
            r@.entries == 0,
            !r@.truncated,
    {
        Self { root: TreeNode::new_dir(root_name), entries: 0, truncated: false }
    }

    /// Takes the next entry of the walk, found below the directories
    /// `parents` (relative to the root). Once `MAX_ENTRIES` entries were
    /// taken, the next one marks the tree truncated instead. Returns whether
    /// the walk should go on.
    pub fn add_entry(
        &mut self,
        parents: &Vec<String>,
        file_name: &str,
        is_dir: bool,
        size: Option<u64>,
    ) -> (more: bool)
        ensures
            more == (!old(self)@.truncated && old(self)@.entries < MAX_ENTRIES),
            more ==> final(self)@ == (FileTreeBuilderView {
                tree: insert_entry(old(self)@.tree, texts(parents@), file_name@, is_dir, size),
                entries: old(self)@.entries + 1,
                truncated: false,
            }),
            !more ==> final(self)@ == (FileTreeBuilderView { truncated: true, ..old(self)@ }),
    {
        if self.truncated {
            return false;
        }
        if self.entries >= MAX_ENTRIES {
            self.truncated = true;
            return false;
        }
        self.entries = self.entries + 1;
        insert_into_tree(&mut self.root, parents, file_name, is_dir, size);
        true
    }

    /// The tree with every level sorted, and whether the walk was cut short.
    pub fn finish(self) -> (r: (TreeNode, bool))
        ensures
            tree_view(r.0) == sorted_tree(self@.tree),
            r.1 == self@.truncated,
    {
        let mut root = self.root;
        sort_children(&mut root);
        (root, self.truncated)
    }
}

impl TreeNode {
    /// The child named `name`, if any.
    pub fn child(&self, name: &str) -> (r: Option<&TreeNode>)
        ensures
            match r {
                Some(c) => {
                    let i = find_child(tree_view(*self).children, name@, 0);
                    &&& 0 <= i < self.children@.len()
                    &&& *c == self.children@[i]
                },
                None => find_child(tree_view(*self).children, name@, 0) == -1,
            },
    {
        match find_child_exec(self, name) {
            Some(i) => Some(&self.children[i]),
            None => None,
        }
    }
}

/// `a` may come before `b` among siblings: directories before files, and
/// among directories or among files, names in case-insensitive order.
pub open spec fn in_child_order(a: TreeView, b: TreeView) -> bool {
    (a.is_dir && !b.is_dir) || (a.is_dir == b.is_dir && !str_less(lowercase(b.name), lowercase(a.name)))
}

/// Every level of `t` is in child order.
pub open spec fn ordered_everywhere(t: TreeView) -> bool
    decreases t,
{
    &&& forall|i: int, j: int|
        0 <= i < j < t.children.len() ==> in_child_order(t.children[i], t.children[j])
    &&& forall|i: int| 0 <= i < t.children.len() ==> ordered_everywhere(#[trigger] t.children[i])
}

/// Sorting puts every level of the tree in order: directories first, then
/// files, each group by case-insensitive name.
pub proof fn lemma_sorted_tree_ordered(t: TreeView)
    ensures
        ordered_everywhere(sorted_tree(t)),
    decreases t,
{
    let subs = sorted_subtrees(t);
    let c = sorted_tree(t).children;
    assert(c == insertion_sorted(subs, child_order()));
    lemma_insertion_sorted_ordered(subs, child_order());
    lemma_insertion_sorted_items(subs, child_order());
    assert forall|i: int, j: int| 0 <= i < j < c.len() implies in_child_order(c[i], c[j]) by {
        assert(!key_less(child_order()(c[j]), child_order()(c[i])));
    }
    assert forall|j: int| 0 <= j < c.len() implies ordered_everywhere(#[trigger] c[j]) by {
        let i = choose|i: int| 0 <= i < subs.len() && #[trigger] c[j] == subs[i];
        assert(subs[i] == sorted_tree(t.children[i]));
        lemma_sorted_tree_ordered(t.children[i]);
    }
}

/// No two children of any node share a name.
pub open spec fn names_unique_everywhere(t: TreeView) -> bool
    decreases t,
{
    &&& forall|i: int, j: int|
        0 <= i < j < t.children.len() ==> t.children[i].name != t.children[j].name
    &&& forall|i: int| 0 <= i < t.children.len() ==> names_unique_everywhere(#[trigger] t.children[i])
}

/// What `find_child` returns.
proof fn lemma_find_child(cs: Seq<TreeView>, name: Seq<char>, from: int)
    requires
        0 <= from,
    ensures
        find_child(cs, name, from) == -1 ==> forall|k: int|
            from <= k < cs.len() ==> (#[trigger] cs[k]).name != name,
        find_child(cs, name, from) != -1 ==> from <= find_child(cs, name, from) < cs.len()
            && cs[find_child(cs, name, from)].name == name,
        find_child(cs, name, from) != -1 ==> forall|k: int|
            from <= k < find_child(cs, name, from) ==> (#[trigger] cs[k]).name != name,
    decreases cs.len() - from,
{
    if from < cs.len() && cs[from].name != name {
        lemma_find_child(cs, name, from + 1);
    }
}

/// Adding a child of a new name, or changing a child but for its name and
/// children, keeps the names of a level distinct.
proof fn lemma_unique_push(t: TreeView, c: TreeView)
    requires
        names_unique_everywhere(t),
        names_unique_everywhere(c),
        forall|k: int| 0 <= k < t.children.len() ==> (#[trigger] t.children[k]).name != c.name,
    ensures
        names_unique_everywhere(TreeView { children: t.children.push(c), ..t }),
{
    let u = TreeView { children: t.children.push(c), ..t };
    assert forall|i: int, j: int| 0 <= i < j < u.children.len() implies u.children[i].name
        != u.children[j].name by {
        assert(u.children[i] == t.children[i]);
        if j < t.children.len() {
            assert(u.children[j] == t.children[j]);
        }
    }
    assert forall|i: int| 0 <= i < u.children.len() implies names_unique_everywhere(
        #[trigger] u.children[i],
    ) by {
        if i < t.children.len() {
            assert(u.children[i] == t.children[i]);
        }
    }
}

/// Inserting an entry keeps the names of every level distinct.
pub proof fn lemma_insert_entry_unique(
    t: TreeView,
    parents: Seq<Seq<char>>,
    name: Seq<char>,
    is_dir: bool,
    size: Option<u64>,
)
    requires
        names_unique_everywhere(t),
    ensures
        names_unique_everywhere(insert_entry(t, parents, name, is_dir, size)),
        insert_entry(t, parents, name, is_dir, size).name == t.name,
    decreases parents.len(),
{
    let r = insert_entry(t, parents, name, is_dir, size);
    if parents.len() == 0 {
        lemma_find_child(t.children, name, 0);
        let i = find_child(t.children, name, 0);
        if 0 <= i < t.children.len() {
            if !is_dir && t.children[i].size is None && size is Some {
                let old_c = t.children[i];
                let new_c = TreeView { size: size, ..old_c };
                assert(names_unique_everywhere(old_c));
                assert(names_unique_everywhere(new_c));
                assert forall|a: int, b: int| 0 <= a < b < r.children.len() implies r.children[a].name
                    != r.children[b].name by {
                    assert(r.children[a].name == t.children[a].name);
                    assert(r.children[b].name == t.children[b].name);
                }
                assert forall|a: int| 0 <= a < r.children.len() implies names_unique_everywhere(
                    #[trigger] r.children[a],
                ) by {
                    if a != i {
                        assert(r.children[a] == t.children[a]);
                    }
                }
            }
        } else {
            let c = if is_dir {
                new_dir_view(name)
            } else {
                new_file_view(name, size)
            };
            assert(names_unique_everywhere(c));
            lemma_unique_push(t, c);
        }
    } else {
        let p = parents[0];
        lemma_find_child(t.children, p, 0);
        let i = find_child(t.children, p, 0);
        let found = 0 <= i < t.children.len();
        let u = if found {
            t
        } else {
            TreeView { children: t.children.push(new_dir_view(p)), ..t }
        };
        if !found {
            assert(names_unique_everywhere(new_dir_view(p)));
            lemma_unique_push(t, new_dir_view(p));
        }
        let cs = u.children;
        let j = if found {
            i
        } else {
            t.children.len() as int
        };
        assert(names_unique_everywhere(cs[j]));
        lemma_insert_entry_unique(cs[j], parents.drop_first(), name, is_dir, size);
        let nc = insert_entry(cs[j], parents.drop_first(), name, is_dir, size);
        assert(r.children == cs.update(j, nc));
        assert forall|a: int, b: int| 0 <= a < b < r.children.len() implies r.children[a].name
            != r.children[b].name by {
            assert(r.children[a].name == cs[a].name);
            assert(r.children[b].name == cs[b].name);
        }
        assert forall|a: int| 0 <= a < r.children.len() implies names_unique_everywhere(
            #[trigger] r.children[a],
        ) by {
            if a != j {
                assert(r.children[a] == cs[a]);
            }
        }
    }
}

/// Sorting only reorders the children of each level: the sorted children
/// are the (sorted) children, each as many times, and the node itself keeps
/// its name, kind and size.
pub proof fn lemma_sorted_tree_same_children(t: TreeView)
    ensures
        sorted_tree(t).children.to_multiset() == sorted_subtrees(t).to_multiset(),
        sorted_tree(t).name == t.name,
        sorted_tree(t).is_dir == t.is_dir,
        sorted_tree(t).size == t.size,
        forall|i: int|
            0 <= i < t.children.len() ==> #[trigger] sorted_subtrees(t)[i] == sorted_tree(
                t.children[i],
            ),
{
    lemma_insertion_sorted_multiset(sorted_subtrees(t), child_order());
}

/// The tree holds an entry named `name` below the directories `parents`.
pub open spec fn has_path(t: TreeView, parents: Seq<Seq<char>>, name: Seq<char>) -> bool
    decreases parents.len(),
{
    if parents.len() == 0 {
        exists|i: int| 0 <= i < t.children.len() && #[trigger] t.children[i].name == name
    } else {
        exists|i: int|
            0 <= i < t.children.len() && #[trigger] t.children[i].name == parents[0] && has_path(
                t.children[i],
                parents.drop_first(),
                name,
            )
    }
}

/// After inserting an entry, the tree holds it at its path; the missing
/// directories on the way have been created.
pub proof fn lemma_insert_entry_present(
    t: TreeView,
    parents: Seq<Seq<char>>,
    name: Seq<char>,
    is_dir: bool,
    size: Option<u64>,
)
    ensures
        has_path(insert_entry(t, parents, name, is_dir, size), parents, name),
        insert_entry(t, parents, name, is_dir, size).name == t.name,
    decreases parents.len(),
{
    let r = insert_entry(t, parents, name, is_dir, size);
    if parents.len() == 0 {
        lemma_find_child(t.children, name, 0);
        let i = find_child(t.children, name, 0);
        if 0 <= i < t.children.len() {
            assert(r.children[i].name == name);
        } else {
            assert(r.children[t.children.len() as int].name == name);
        }
    } else {
        let p = parents[0];
        lemma_find_child(t.children, p, 0);
        let i = find_child(t.children, p, 0);
        let found = 0 <= i < t.children.len();
        let cs = if found {
            t.children
        } else {
            t.children.push(new_dir_view(p))
        };
        let j = if found {
            i
        } else {
            t.children.len() as int
        };
        assert(cs[j].name == p);
        lemma_insert_entry_present(cs[j], parents.drop_first(), name, is_dir, size);
        let nc = insert_entry(cs[j], parents.drop_first(), name, is_dir, size);
        assert(r.children[j] == nc);
        assert(r.children[j].name == parents[0]);
    }
}

/// `find_child` finds `i` again after the children are changed at `i`
/// without changing the name there, or after a child of that name is added
/// to children that lacked one.
proof fn lemma_find_child_kept(cs: Seq<TreeView>, cs2: Seq<TreeView>, name: Seq<char>, i: int)
    requires
        0 <= i < cs2.len(),
        cs2[i].name == name,
        forall|k: int| 0 <= k < i ==> (#[trigger] cs2[k]).name != name,
    ensures
        find_child(cs2, name, 0) == i,
{
    lemma_find_child(cs2, name, 0);
    let r = find_child(cs2, name, 0);
    if r == -1 {
        assert(cs2[i].name != name);
    } else if r < i {
        assert(cs2[r].name != name);
    } else if r > i {
        assert(cs2[i].name != name);
    }
}

/// Inserting the same entry a second time changes nothing.
pub proof fn lemma_insert_entry_idempotent(
    t: TreeView,
    parents: Seq<Seq<char>>,
    name: Seq<char>,
    is_dir: bool,
    size: Option<u64>,
)
    ensures
        insert_entry(insert_entry(t, parents, name, is_dir, size), parents, name, is_dir, size)
            == insert_entry(t, parents, name, is_dir, size),
    decreases parents.len(),
{
    let t1 = insert_entry(t, parents, name, is_dir, size);
    let t2 = insert_entry(t1, parents, name, is_dir, size);
    if parents.len() == 0 {
        lemma_find_child(t.children, name, 0);
        let i = find_child(t.children, name, 0);
        if 0 <= i < t.children.len() {
            assert forall|k: int| 0 <= k < i implies (#[trigger] t1.children[k]).name != name by {
                assert(t1.children[k] == t.children[k]);
            }
            lemma_find_child_kept(t.children, t1.children, name, i);
        } else {
            let n = t.children.len() as int;
            assert forall|k: int| 0 <= k < n implies (#[trigger] t1.children[k]).name != name by {
                assert(t1.children[k] == t.children[k]);
            }
            lemma_find_child_kept(t.children, t1.children, name, n);
        }
        assert(t2.children =~= t1.children);
    } else {
        let p = parents[0];
        lemma_find_child(t.children, p, 0);
        let i = find_child(t.children, p, 0);
        let found = 0 <= i < t.children.len();
        let cs = if found {
            t.children
        } else {
            t.children.push(new_dir_view(p))
        };
        let j = if found {
            i
        } else {
            t.children.len() as int
        };
        let rest = parents.drop_first();
        lemma_insert_entry_present(cs[j], rest, name, is_dir, size);
        let c1 = insert_entry(cs[j], rest, name, is_dir, size);
        assert(t1.children == cs.update(j, c1));
        assert forall|k: int| 0 <= k < j implies (#[trigger] t1.children[k]).name != p by {
            assert(t1.children[k] == t.children[k]);
        }
        lemma_find_child_kept(cs, t1.children, p, j);
        lemma_insert_entry_idempotent(cs[j], rest, name, is_dir, size);
        assert(t2.children =~= t1.children.update(j, insert_entry(c1, rest, name, is_dir, size)));
        assert(t2.children =~= t1.children);
    }
    assert(t2 =~= t1);
}

/// `new` keeps everything of `old`: the same name and kind, a known size,
/// and, at every level, the old children at their old positions (each
/// kept in the same sense); new children may follow them.
pub open spec fn extends(old: TreeView, new: TreeView) -> bool
    decreases old,
{
    &&& new.name == old.name
    &&& new.is_dir == old.is_dir
    &&& (old.size is Some ==> new.size == old.size)
    &&& new.children.len() >= old.children.len()
    &&& forall|k: int|
        0 <= k < old.children.len() ==> extends(#[trigger] old.children[k], new.children[k])
}

/// Every tree extends itself.
pub proof fn lemma_extends_refl(t: TreeView)
    ensures
        extends(t, t),
    decreases t,
{
    assert forall|k: int| 0 <= k < t.children.len() implies extends(
        #[trigger] t.children[k],
        t.children[k],
    ) by {
        lemma_extends_refl(t.children[k]);
    }
}

/// Inserting an entry removes and reorders nothing: the new tree extends
/// the old one.
pub proof fn lemma_insert_entry_extends(
    t: TreeView,
    parents: Seq<Seq<char>>,
    name: Seq<char>,
    is_dir: bool,
    size: Option<u64>,
)
    ensures
        extends(t, insert_entry(t, parents, name, is_dir, size)),
    decreases parents.len(),
{
    let r = insert_entry(t, parents, name, is_dir, size);
    if parents.len() == 0 {
        let i = find_child(t.children, name, 0);
        assert forall|k: int| 0 <= k < t.children.len() implies extends(
            #[trigger] t.children[k],
            r.children[k],
        ) by {
            let c = t.children[k];
            lemma_extends_refl(c);
            if k == i && !is_dir && c.size is None && size is Some {
                assert forall|m: int| 0 <= m < c.children.len() implies extends(
                    #[trigger] c.children[m],
                    r.children[k].children[m],
                ) by {
                    lemma_extends_refl(c.children[m]);
                }
            }
        }
    } else {
        let p = parents[0];
        let i = find_child(t.children, p, 0);
        let found = 0 <= i < t.children.len();
        let cs = if found {
            t.children
        } else {
            t.children.push(new_dir_view(p))
        };
        let j = if found {
            i
        } else {
            t.children.len() as int
        };
        let rest = parents.drop_first();
        lemma_insert_entry_extends(cs[j], rest, name, is_dir, size);
        assert forall|k: int| 0 <= k < t.children.len() implies extends(
            #[trigger] t.children[k],
            r.children[k],
        ) by {
            if k != j {
                assert(r.children[k] == t.children[k]);
                lemma_extends_refl(t.children[k]);
            } else {
                assert(cs[j] == t.children[k]);
            }
        }
    }
}

/// Sorting is stable: children with the same key (the same kind and the
/// same lowercase name) keep their relative order.
pub proof fn lemma_sorted_tree_stable(t: TreeView)
    ensures
        is_stable_sort(sorted_subtrees(t), sorted_tree(t).children, child_order()),
{
    let p = lemma_insertion_sorted_stable(sorted_subtrees(t), child_order());
    assert(is_sort_witness(sorted_subtrees(t), sorted_tree(t).children, child_order(), p));
}

/// Sorting a sorted tree again changes nothing.
pub proof fn lemma_sorted_tree_idempotent(t: TreeView)
    ensures
        sorted_tree(sorted_tree(t)) == sorted_tree(t),
    decreases t,
{
    let subs = sorted_subtrees(t);
    let u = sorted_tree(t);
    let c = u.children;
    assert(c == insertion_sorted(subs, child_order()));
    lemma_insertion_sorted_items(subs, child_order());
    lemma_insertion_sorted_ordered(subs, child_order());
    assert forall|j: int| 0 <= j < c.len() implies #[trigger] sorted_subtrees(u)[j] == c[j] by {
        let i = choose|i: int| 0 <= i < subs.len() && #[trigger] c[j] == subs[i];
        assert(subs[i] == sorted_tree(t.children[i]));
        lemma_sorted_tree_idempotent(t.children[i]);
    }
    assert(sorted_subtrees(u) =~= c);
    lemma_insertion_sorted_of_ordered(c, child_order());
    assert(sorted_tree(u) =~= u);
}

/// The node named `name` below the directories `parents`, if the tree
/// has one (following the first child of each name).
pub open spec fn node_at(t: TreeView, parents: Seq<Seq<char>>, name: Seq<char>) -> Option<TreeView>
    decreases parents.len(),
{
    if parents.len() == 0 {
        let i = find_child(t.children, name, 0);
        if 0 <= i < t.children.len() {
            Some(t.children[i])
        } else {
            None
        }
    } else {
        let i = find_child(t.children, parents[0], 0);
        if 0 <= i < t.children.len() {
            node_at(t.children[i], parents.drop_first(), name)
        } else {
            None
        }
    }
}

/// The entry after it was inserted, given what stood at its place before:
/// a new directory or file of that name when there was none; otherwise the
/// same node, whose missing size a file insert fills in.
pub open spec fn entry_after(before: Option<TreeView>, name: Seq<char>, is_dir: bool, size: Option<u64>) -> TreeView {
    match before {
        None => if is_dir {
            new_dir_view(name)
        } else {
            new_file_view(name, size)
        },
        Some(c) => if !is_dir && c.size is None && size is Some {
            TreeView { size: size, ..c }
        } else {
            c
        },
    }
}

/// After an insert, the entry at its path is a new directory or file when
/// there was none, or else the node that stood there, with its size filled
/// in by a file insert when it had none.
pub proof fn lemma_insert_entry_node(
    t: TreeView,
    parents: Seq<Seq<char>>,
    name: Seq<char>,
    is_dir: bool,
    size: Option<u64>,
)
    ensures
        node_at(insert_entry(t, parents, name, is_dir, size), parents, name) == Some(
            entry_after(node_at(t, parents, name), name, is_dir, size),
        ),
    decreases parents.len(),
{
    let t1 = insert_entry(t, parents, name, is_dir, size);
    if parents.len() == 0 {
        lemma_find_child(t.children, name, 0);
        let i = find_child(t.children, name, 0);
        if 0 <= i < t.children.len() {
            assert forall|k: int| 0 <= k < i implies (#[trigger] t1.children[k]).name != name by {
                assert(t1.children[k] == t.children[k]);
            }
            lemma_find_child_kept(t.children, t1.children, name, i);
        } else {
            let n = t.children.len() as int;
            assert forall|k: int| 0 <= k < n implies (#[trigger] t1.children[k]).name != name by {
                assert(t1.children[k] == t.children[k]);
            }
            lemma_find_child_kept(t.children, t1.children, name, n);
        }
    } else {
        let p = parents[0];
        lemma_find_child(t.children, p, 0);
        let i = find_child(t.children, p, 0);
        let found = 0 <= i < t.children.len();
        let cs = if found {
            t.children
        } else {
            t.children.push(new_dir_view(p))
        };
        let j = if found {
            i
        } else {
            t.children.len() as int
        };
        let rest = parents.drop_first();
        lemma_insert_entry_present(cs[j], rest, name, is_dir, size);
        let c1 = insert_entry(cs[j], rest, name, is_dir, size);
        assert(t1.children == cs.update(j, c1));
        assert forall|k: int| 0 <= k < j implies (#[trigger] t1.children[k]).name != p by {
            assert(t1.children[k] == t.children[k]);
        }
        lemma_find_child_kept(cs, t1.children, p, j);
        lemma_insert_entry_node(cs[j], rest, name, is_dir, size);
        if !found {
            lemma_node_at_empty(p, rest, name);
        }
    }
}

/// A new directory holds nothing.
proof fn lemma_node_at_empty(p: Seq<char>, parents: Seq<Seq<char>>, name: Seq<char>)
    ensures
        node_at(new_dir_view(p), parents, name) is None,
{
    let d = new_dir_view(p);
    if parents.len() == 0 {
        assert(find_child(d.children, name, 0) == -1);
    } else {
        assert(find_child(d.children, parents[0], 0) == -1);
    }
}

/// Along the path `parents`, `new` has each directory: the one `old` had at
/// the same position, or, where `old` had none, a directory of that name
/// created with no size (and again so below it).
pub open spec fn path_dirs_made(old: TreeView, new: TreeView, parents: Seq<Seq<char>>) -> bool
    decreases parents.len(),
{
    if parents.len() == 0 {
        true
    } else {
        let p = parents[0];
        let io = find_child(old.children, p, 0);
        let inew = find_child(new.children, p, 0);
        &&& 0 <= inew < new.children.len()
        &&& if 0 <= io < old.children.len() {
            inew == io && path_dirs_made(old.children[io], new.children[inew], parents.drop_first())
        } else {
            &&& new.children[inew].is_dir
            &&& new.children[inew].size is None
            &&& path_dirs_made(new_dir_view(p), new.children[inew], parents.drop_first())
        }
    }
}

/// An insert keeps each directory on the entry's path where it was and
/// creates the missing ones as directories.
pub proof fn lemma_insert_entry_dirs(
    t: TreeView,
    parents: Seq<Seq<char>>,
    name: Seq<char>,
    is_dir: bool,
    size: Option<u64>,
)
    ensures
        path_dirs_made(t, insert_entry(t, parents, name, is_dir, size), parents),
    decreases parents.len(),
{
    if parents.len() > 0 {
        let t1 = insert_entry(t, parents, name, is_dir, size);
        let p = parents[0];
        lemma_find_child(t.children, p, 0);
        let i = find_child(t.children, p, 0);
        let found = 0 <= i < t.children.len();
        let cs = if found {
            t.children
        } else {
            t.children.push(new_dir_view(p))
        };
        let j = if found {
            i
        } else {
            t.children.len() as int
        };
        let rest = parents.drop_first();
        lemma_insert_entry_present(cs[j], rest, name, is_dir, size);
        lemma_insert_entry_extends(cs[j], rest, name, is_dir, size);
        let c1 = insert_entry(cs[j], rest, name, is_dir, size);
        assert(t1.children == cs.update(j, c1));
        assert forall|k: int| 0 <= k < j implies (#[trigger] t1.children[k]).name != p by {
            assert(t1.children[k] == t.children[k]);
        }
        lemma_find_child_kept(cs, t1.children, p, j);
        lemma_insert_entry_dirs(cs[j], rest, name, is_dir, size);
        if !found {
            assert(c1.is_dir == cs[j].is_dir);
        }
    }
}

} // verus!
