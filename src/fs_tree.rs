//! The directory tree of the file view: built from the paths a directory
//! walk yields, drawn as indented lines.

use crate::paths::{
    components_of, joined_of, parent_of, path_components, path_join, path_parent, strings_view,
};
use vstd::prelude::*;

verus! {

/// A directory of the tree; node 0 is the root.
pub struct TreeNode {
    pub name: String,
    /// The directory, relative to the root.
    pub path: String,
    /// The subdirectories, as node indices, in the order found.
    pub items: Vec<usize>,
}

pub ghost struct NodeView {
    pub name: Seq<char>,
    pub path: Seq<char>,
    pub items: Seq<usize>,
}

impl View for TreeNode {
    type V = NodeView;

    open spec fn view(&self) -> NodeView {
        NodeView { name: self.name@, path: self.path@, items: self.items@ }
    }
}

pub open spec fn arena_view(a: Seq<TreeNode>) -> Seq<NodeView> {
    a.map_values(|n: TreeNode| n@)
}

/// Every node lists subdirectories that come after it in the arena.
pub open spec fn tree_wf(a: Seq<NodeView>) -> bool {
    &&& a.len() > 0
    &&& forall|n: int, k: int|
        0 <= n < a.len() && 0 <= k < a[n].items.len() ==> n < #[trigger] a[n].items[k] < a.len()
}

/// The first of `items` whose node is named `name`.
pub open spec fn find_child(a: Seq<NodeView>, items: Seq<usize>, name: Seq<char>) -> Option<int>
    decreases items.len(),
{
    if items.len() == 0 {
        None
    } else if a[items.last() as int].name == name && find_child(a, items.drop_last(), name) is None {
        Some(items.len() - 1)
    } else {
        find_child(a, items.drop_last(), name)
    }
}

/// The tree after the directory with components `comps` below node `cur`
/// is added: existing directories are followed by name, missing ones are
/// appended, each recorded with `path`.
pub open spec fn inserted(a: Seq<NodeView>, cur: int, comps: Seq<Seq<char>>, path: Seq<char>) -> Seq<NodeView>
    decreases comps.len(),
{
    if comps.len() == 0 || !(0 <= cur < a.len()) {
        a
    } else {
        match find_child(a, a[cur].items, comps[0]) {
            Some(k) => inserted(a, a[cur].items[k] as int, comps.drop_first(), path),
            None => {
                let n = a.len();
                let a2 = a.update(cur, NodeView { items: a[cur].items.push(n as usize), ..a[cur] }).push(
                    NodeView { name: comps[0], path, items: seq![] },
                );
                inserted(a2, n as int, comps.drop_first(), path)
            },
        }
    }
}

/// The tree for the walked paths, first to last; a path without parent
/// adds nothing.
pub open spec fn built(a: Seq<NodeView>, walk: Seq<Seq<char>>) -> Seq<NodeView>
    decreases walk.len(),
{
    if walk.len() == 0 {
        a
    } else {
        let a1 = match parent_of(walk[0]) {
            Some(parent) => inserted(a, 0, components_of(parent), parent),
            None => a,
        };
        built(a1, walk.drop_first())
    }
}

/// The empty tree: a root without name.
pub open spec fn root_tree() -> Seq<NodeView> {
    seq![NodeView { name: seq![], path: seq![], items: seq![] }]
}

pub open spec fn branch_mark(last: bool) -> Seq<char> {
    if last {
        seq!['└']
    } else {
        seq!['├']
    }
}

pub open spec fn indent_mark(last: bool) -> Seq<char> {
    if last {
        seq![' ']
    } else {
        seq!['│']
    }
}

/// The lines for the subdirectories of `node` from the `k`-th on, each
/// followed by the lines of its own subtree: the directory's path and its
/// drawn line.
pub open spec fn drawn(a: Seq<NodeView>, node: int, k: int, prefix: Seq<char>) -> Seq<(Seq<char>, Seq<char>)>
    decreases a.len() - node, a[node].items.len() - k,
    when 0 <= node < a.len() && 0 <= k
{
    if k >= a[node].items.len() {
        seq![]
    } else {
        let c = a[node].items[k] as int;
        if c <= node || c >= a.len() {
            seq![]
        } else {
            let last = k + 1 == a[node].items.len();
            seq![(a[c].path, prefix + branch_mark(last) + a[c].name)] + drawn(a, c, 0, prefix + indent_mark(last))
                + drawn(a, node, k + 1, prefix)
        }
    }
}

/// Adds the directory with components `comps`, recorded as `path`.
fn insert_dir(arena: &mut Vec<TreeNode>, comps: &Vec<String>, path: &String)
    requires
        tree_wf(arena_view(old(arena)@)),
    ensures
        tree_wf(arena_view(final(arena)@)),
        arena_view(final(arena)@) == inserted(arena_view(old(arena)@), 0, strings_view(comps@), path@),
{
    let ghost target = inserted(arena_view(arena@), 0, strings_view(comps@), path@);
    let mut cur: usize = 0;
    let mut i: usize = 0;
    proof {
        assert(strings_view(comps@).subrange(0, comps@.len() as int) =~= strings_view(comps@));
    }
    while i < comps.len()
        invariant
            tree_wf(arena_view(arena@)),
            cur < arena@.len(),
            0 <= i <= comps@.len(),
            inserted(arena_view(arena@), cur as int, strings_view(comps@).subrange(i as int, comps@.len() as int), path@) == target,
        decreases comps@.len() - i,
    {
        let ghost a0 = arena_view(arena@);
        let ghost rest = strings_view(comps@).subrange(i as int, comps@.len() as int);
        assert(rest.drop_first() =~= strings_view(comps@).subrange(i + 1, comps@.len() as int));
        assert(rest[0] == comps@[i as int]@);
        let mut j: usize = 0;
        let mut found: Option<usize> = None;
        proof {
            assert(a0[cur as int].items.subrange(0, a0[cur as int].items.len() as int) =~= a0[cur as int].items);
        }
        while j < arena[cur].items.len()
            invariant_except_break
                found is None,
            invariant
                tree_wf(arena_view(arena@)),
                arena_view(arena@) == a0,
                cur < arena@.len(),
                i < comps@.len(),
                rest[0] == comps@[i as int]@,
                0 <= j <= a0[cur as int].items.len(),
                a0[cur as int].items.subrange(0, a0[cur as int].items.len() as int) == a0[cur as int].items,
                find_child(a0, a0[cur as int].items.subrange(0, j as int), rest[0]) is None,
            ensures
                found matches Some(k) ==> k < a0[cur as int].items.len() && find_child(a0, a0[cur as int].items, rest[0]) == Some(k as int),
                found is None ==> find_child(a0, a0[cur as int].items, rest[0]) is None,
            decreases a0[cur as int].items.len() - j,
        {
            let c = arena[cur].items[j];
            proof {
                assert(c < a0.len());
            }
            let ghost pre = a0[cur as int].items.subrange(0, j + 1);
            proof {
                assert(pre.drop_last() =~= a0[cur as int].items.subrange(0, j as int));
            }
            if arena[c].name == comps[i] {
                found = Some(j);
                proof {
                    assert(find_child(a0, pre, rest[0]) == Some(j as int));
                    lemma_find_child_prefix(a0, a0[cur as int].items, j as int + 1, rest[0], j as int);
                }
                break;
            }
            j = j + 1;
        }
        match found {
            Some(k) => {
                let next = arena[cur].items[k];
                proof {
                    assert(cur < next < a0.len());
                    assert(rest.len() > 0);
                }
                cur = next;
            },
            None => {
                let n = arena.len();
                arena[cur].items.push(n);
                arena.push(TreeNode { name: comps[i].clone(), path: path.clone(), items: Vec::new() });
                proof {
                    let a2 = a0.update(cur as int, NodeView { items: a0[cur as int].items.push(n), ..a0[cur as int] }).push(
                        NodeView { name: rest[0], path: path@, items: seq![] },
                    );
                    assert(arena_view(arena@) =~= a2);
                    assert forall|m: int, k: int|
                        0 <= m < a2.len() && 0 <= k < a2[m].items.len() implies m < #[trigger] a2[m].items[k] < a2.len() by {
                        if m < a0.len() && !(m == cur && k == a0[cur as int].items.len()) {
                            assert(a0[m].items[k] == a2[m].items[k]);
                        }
                    }
                }
                cur = n;
            },
        }
        i = i + 1;
    }
}

/// The tree of directories that hold the walked paths.
pub fn build_tree(walk: &Vec<String>) -> (r: Vec<TreeNode>)
    ensures
        arena_view(r@) == built(root_tree(), strings_view(walk@)),
        tree_wf(arena_view(r@)),
{
    let mut arena: Vec<TreeNode> = Vec::new();
    arena.push(TreeNode { name: String::new(), path: String::new(), items: Vec::new() });
    let ghost w = strings_view(walk@);
    proof {
        assert(arena_view(arena@) =~= root_tree());
        assert(w.subrange(0, w.len() as int) =~= w);
    }
    let mut i: usize = 0;
    while i < walk.len()
        invariant
            0 <= i <= walk@.len(),
            w == strings_view(walk@),
            tree_wf(arena_view(arena@)),
            built(arena_view(arena@), w.subrange(i as int, w.len() as int)) == built(root_tree(), w),
        decreases walk@.len() - i,
    {
        let ghost rest = w.subrange(i as int, w.len() as int);
        assert(rest.drop_first() =~= w.subrange(i + 1, w.len() as int));
        assert(rest[0] == walk@[i as int]@);
        match path_parent(walk[i].as_str()) {
            Some(parent) => {
                let comps = path_components(parent.as_str());
                insert_dir(&mut arena, &comps, &parent);
            },
            None => {},
        }
        i = i + 1;
    }
    arena
}

/// The paths of drawn lines, each appended to `root`.
pub open spec fn drawn_dirs(root: Seq<char>, d: Seq<(Seq<char>, Seq<char>)>) -> Seq<Seq<char>> {
    d.map_values(|e: (Seq<char>, Seq<char>)| joined_of(root, e.0))
}

/// The text of drawn lines.
pub open spec fn drawn_lines(d: Seq<(Seq<char>, Seq<char>)>) -> Seq<Seq<char>> {
    d.map_values(|e: (Seq<char>, Seq<char>)| e.1)
}

/// Draws the subtree below `node`: for each directory its path, appended
/// to `root`, goes to `dirs` and its line to `display`.
pub fn draw_tree(
    arena: &Vec<TreeNode>,
    node: usize,
    prefix: &String,
    root: &str,
    dirs: &mut Vec<String>,
    display: &mut Vec<String>,
)
    requires
        tree_wf(arena_view(arena@)),
        node < arena@.len(),
    ensures
        strings_view(final(dirs)@) == strings_view(old(dirs)@) + drawn_dirs(root@, drawn(arena_view(arena@), node as int, 0, prefix@)),
        strings_view(final(display)@) == strings_view(old(display)@) + drawn_lines(drawn(arena_view(arena@), node as int, 0, prefix@)),
    decreases arena@.len() - node,
{
    let ghost a = arena_view(arena@);
    let ghost dirs0 = strings_view(dirs@);
    let ghost display0 = strings_view(display@);
    let n = arena[node].items.len();
    let mut k: usize = 0;
    proof {
        assert(strings_view(dirs@) + drawn_dirs(root@, drawn(a, node as int, 0, prefix@)) =~= dirs0 + drawn_dirs(root@, drawn(a, node as int, 0, prefix@)));
    }
    while k < n
        invariant
            a == arena_view(arena@),
            tree_wf(a),
            node < arena@.len(),
            n == a[node as int].items.len(),
            0 <= k <= n,
            strings_view(dirs@) + drawn_dirs(root@, drawn(a, node as int, k as int, prefix@)) == dirs0 + drawn_dirs(root@, drawn(a, node as int, 0, prefix@)),
            strings_view(display@) + drawn_lines(drawn(a, node as int, k as int, prefix@)) == display0 + drawn_lines(drawn(a, node as int, 0, prefix@)),
        decreases n - k,
    {
        let c = arena[node].items[k];
        proof {
            assert(node < c < a.len());
        }
        let last = k + 1 == n;
        let mut line = prefix.clone();
        let mut sub = prefix.clone();
        if last {
            line.append("└");
            sub.append(" ");
            proof {
                reveal_strlit("└");
                reveal_strlit(" ");
            }
        } else {
            line.append("├");
            sub.append("│");
            proof {
                reveal_strlit("├");
                reveal_strlit("│");
            }
        }
        line.append(arena[c].name.as_str());
        let ghost e = (a[c as int].path, line@);
        let ghost d_here = drawn(a, node as int, k as int, prefix@);
        let ghost d_sub = drawn(a, c as int, 0, sub@);
        let ghost d_next = drawn(a, node as int, k + 1, prefix@);
        proof {
            assert(line@ =~= prefix@ + branch_mark(last) + a[c as int].name);
            assert(sub@ =~= prefix@ + indent_mark(last));
            assert(d_here == seq![e] + d_sub + d_next);
        }
        let ghost dirs1 = strings_view(dirs@);
        let ghost display1 = strings_view(display@);
        dirs.push(path_join(root, arena[c].path.as_str()));
        display.push(line);
        proof {
            assert(strings_view(dirs@) =~= dirs1.push(joined_of(root@, e.0)));
            assert(strings_view(display@) =~= display1.push(e.1));
        }
        let ghost dirs2 = strings_view(dirs@);
        let ghost display2 = strings_view(display@);
        draw_tree(arena, c, &sub, root, dirs, display);
        proof {
            assert(drawn_dirs(root@, d_here) =~= seq![joined_of(root@, e.0)] + drawn_dirs(root@, d_sub) + drawn_dirs(root@, d_next));
            assert(drawn_lines(d_here) =~= seq![e.1] + drawn_lines(d_sub) + drawn_lines(d_next));
            assert(strings_view(dirs@) + drawn_dirs(root@, d_next) =~= dirs1 + drawn_dirs(root@, d_here));
            assert(strings_view(display@) + drawn_lines(d_next) =~= display1 + drawn_lines(d_here));
        }
        k = k + 1;
    }
    proof {
        assert(drawn(a, node as int, n as int, prefix@) == Seq::<(Seq<char>, Seq<char>)>::empty());
        assert(strings_view(dirs@) =~= strings_view(dirs@) + drawn_dirs(root@, Seq::<(Seq<char>, Seq<char>)>::empty()));
        assert(strings_view(display@) =~= strings_view(display@) + drawn_lines(Seq::<(Seq<char>, Seq<char>)>::empty()));
    }
}

/// A match found in a prefix of `items` is the match of all of `items`.
proof fn lemma_find_child_prefix(a: Seq<NodeView>, items: Seq<usize>, j: int, name: Seq<char>, x: int)
    requires
        0 < j <= items.len(),
        find_child(a, items.subrange(0, j), name) == Some(x),
    ensures
        find_child(a, items, name) == Some(x),
    decreases items.len() - j,
{
    if j < items.len() {
        assert(items.subrange(0, j + 1).drop_last() =~= items.subrange(0, j));
        assert(find_child(a, items.subrange(0, j + 1), name) == Some(x));
        lemma_find_child_prefix(a, items, j + 1, name, x);
    } else {
        assert(items.subrange(0, j) =~= items);
    }
}

} // verus!
