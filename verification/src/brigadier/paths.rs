//! The paths of the tree: every node with the nodes that lead to it.

use crate::brigadier::command_dispatcher::{
    lemma_slot_from, slot_from, spec_child, spec_find_node, CommandDispatcher,
};
use crate::brigadier::text::{copy_chars, lines_to_strings, lines_view, strings_view};
use crate::brigadier::tree::{lemma_name_order_total, name_less, well_formed, NodeView};
use vstd::prelude::*;

verus! {

/// The node sequences of a list of paths.
pub open spec fn paths_view(paths: Seq<Vec<usize>>) -> Seq<Seq<usize>> {
    Seq::new(paths.len(), |i: int| paths[i]@)
}

/// The paths to `node` and to all nodes below it, `parents` leading to
/// `node`: first the path to `node` itself, then the paths below each of
/// its children in turn.
pub open spec fn spec_paths(tree: Seq<NodeView>, node: int, parents: Seq<usize>) -> Seq<Seq<usize>>
    decreases tree.len() - node, 1int, 0int,
{
    if node < 0 || node >= tree.len() {
        Seq::empty()
    } else {
        let current = parents.push(node as usize);
        seq![current] + spec_paths_below(tree, node, 0, current)
    }
}

/// The paths below the children of `node` from the `k`-th on.
pub open spec fn spec_paths_below(tree: Seq<NodeView>, node: int, k: int, current: Seq<usize>) -> Seq<
    Seq<usize>,
>
    decreases tree.len() - node, 0int, tree[node].children.len() - k,
{
    let kids = tree[node].children;
    if node < 0 || node >= tree.len() || k < 0 || k >= kids.len() {
        Seq::empty()
    } else {
        let child = kids[k] as int;
        let below = if node < child < tree.len() {
            spec_paths(tree, child, current)
        } else {
            Seq::empty()
        };
        below + spec_paths_below(tree, node, k + 1, current)
    }
}

/// The first of `paths`, from the `i`-th on, that ends at `target`, or the
/// empty path where none does.
pub open spec fn first_ending_at(paths: Seq<Seq<usize>>, i: int, target: usize) -> Seq<usize>
    decreases paths.len() - i,
{
    if i < 0 || i >= paths.len() {
        Seq::empty()
    } else if paths[i].len() > 0 && paths[i].last() == target {
        paths[i]
    } else {
        first_ending_at(paths, i + 1, target)
    }
}

/// The names of the nodes of `path` from the `i`-th on, but for the root.
pub open spec fn names_along(tree: Seq<NodeView>, path: Seq<usize>, i: int) -> Seq<Seq<char>>
    decreases path.len() - i,
{
    if i < 0 || i >= path.len() {
        Seq::empty()
    } else if path[i] == 0 || path[i] >= tree.len() {
        names_along(tree, path, i + 1)
    } else {
        seq![tree[path[i] as int].name] + names_along(tree, path, i + 1)
    }
}

/// The names that lead from the root to `target`: none for the root
/// itself, and none for a node that is not in the tree.
pub open spec fn spec_path(tree: Seq<NodeView>, target: usize) -> Seq<Seq<char>> {
    names_along(tree, first_ending_at(spec_paths(tree, 0, Seq::empty()), 0, target), 0)
}

/// Whether `child` is a child of `parent`.
pub open spec fn is_child(tree: Seq<NodeView>, parent: usize, child: usize) -> bool {
    parent < tree.len() && tree[parent as int].children.contains(child)
}

/// Whether each node of `path` but the first is a child of the node
/// before it.
pub open spec fn descends(tree: Seq<NodeView>, path: Seq<usize>) -> bool {
    forall|i: int| 0 <= i < path.len() - 1 ==> is_child(tree, #[trigger] path[i], path[i + 1])
}

/// Whether `path` leads from the root down to `target`.
pub open spec fn leads_to(tree: Seq<NodeView>, path: Seq<usize>, target: usize) -> bool {
    path.len() > 0 && path[0] == 0 && path.last() == target && descends(tree, path)
}

/// Whether `target` can be reached from the root through children.
pub open spec fn reachable(tree: Seq<NodeView>, target: usize) -> bool {
    exists|path: Seq<usize>| leads_to(tree, path, target)
}

/// Whether `path` begins with `first` and goes down from there.
pub open spec fn goes_down_from(tree: Seq<NodeView>, path: Seq<usize>, first: usize) -> bool {
    path.len() > 0 && path[0] == first && descends(tree, path)
}

/// Every path listed for `node` goes down from where the path to `node`
/// begins.
proof fn lemma_listed_go_down(tree: Seq<NodeView>, node: usize, parents: Seq<usize>)
    requires
        well_formed(tree),
        node < tree.len(),
        descends(tree, parents.push(node)),
    ensures
        forall|j: int|
            0 <= j < spec_paths(tree, node as int, parents).len() ==> goes_down_from(
                tree,
                #[trigger] spec_paths(tree, node as int, parents)[j],
                parents.push(node)[0],
            ),
    decreases tree.len() - node, 1int, 0int,
{
    let current = parents.push(node);
    lemma_listed_below_go_down(tree, node, 0, current);
    let below = spec_paths_below(tree, node as int, 0, current);
    let listed = spec_paths(tree, node as int, parents);
    assert forall|j: int| 0 <= j < listed.len() implies goes_down_from(
        tree,
        #[trigger] listed[j],
        current[0],
    ) by {
        if j > 0 {
            assert(listed[j] == below[j - 1]);
        }
    }
}

/// Every path listed below the children of `node` goes down from where
/// the path to `node` begins.
proof fn lemma_listed_below_go_down(tree: Seq<NodeView>, node: usize, k: int, current: Seq<usize>)
    requires
        well_formed(tree),
        node < tree.len(),
        0 <= k <= tree[node as int].children.len(),
        current.len() > 0,
        current.last() == node,
        descends(tree, current),
    ensures
        forall|j: int|
            0 <= j < spec_paths_below(tree, node as int, k, current).len() ==> goes_down_from(
                tree,
                #[trigger] spec_paths_below(tree, node as int, k, current)[j],
                current[0],
            ),
    decreases tree.len() - node, 0int, tree[node as int].children.len() - k,
{
    let kids = tree[node as int].children;
    if k < kids.len() {
        let child = kids[k];
        assert(node < tree[node as int].children[k] < tree.len());
        let longer = current.push(child);
        assert(descends(tree, longer)) by {
            assert forall|i: int| 0 <= i < longer.len() - 1 implies is_child(
                tree,
                #[trigger] longer[i],
                longer[i + 1],
            ) by {
                if i < current.len() - 1 {
                    assert(is_child(tree, current[i], current[i + 1]));
                } else {
                    assert(kids[k] == child);
                }
            }
        }
        lemma_listed_go_down(tree, child, current);
        lemma_listed_below_go_down(tree, node, k + 1, current);
        assert(longer[0] == current[0]);
        let below = spec_paths(tree, child as int, current);
        let rest = spec_paths_below(tree, node as int, k + 1, current);
        let listed = spec_paths_below(tree, node as int, k, current);
        assert(listed == below + rest);
        assert forall|j: int| 0 <= j < listed.len() implies goes_down_from(
            tree,
            #[trigger] listed[j],
            current[0],
        ) by {
            if j < below.len() {
                assert(listed[j] == below[j]);
            } else {
                assert(listed[j] == rest[j - below.len()]);
            }
        }
    }
}

/// What is listed for a child of `node` is listed below `node`.
proof fn lemma_below_holds(
    tree: Seq<NodeView>,
    node: usize,
    from: int,
    k: int,
    current: Seq<usize>,
    path: Seq<usize>,
)
    requires
        well_formed(tree),
        node < tree.len(),
        0 <= from <= k < tree[node as int].children.len(),
        spec_paths(tree, tree[node as int].children[k] as int, current).contains(path),
    ensures
        spec_paths_below(tree, node as int, from, current).contains(path),
    decreases k - from,
{
    let kids = tree[node as int].children;
    let child = kids[from] as int;
    assert(node < tree[node as int].children[from] < tree.len());
    let below = spec_paths(tree, child, current);
    let rest = spec_paths_below(tree, node as int, from + 1, current);
    if from == k {
        let j = choose|j: int| 0 <= j < below.len() && below[j] == path;
        assert((below + rest)[j] == path);
    } else {
        lemma_below_holds(tree, node, from + 1, k, current, path);
        let j = choose|j: int| 0 <= j < rest.len() && rest[j] == path;
        assert((below + rest)[below.len() + j] == path);
    }
}

/// Every way down from `node` is listed for `node`, after the nodes that
/// lead to it.
proof fn lemma_lists_every_way(
    tree: Seq<NodeView>,
    node: usize,
    parents: Seq<usize>,
    way: Seq<usize>,
)
    requires
        well_formed(tree),
        node < tree.len(),
        goes_down_from(tree, way, node),
    ensures
        spec_paths(tree, node as int, parents).contains(parents + way),
    decreases way.len(),
{
    let current = parents.push(node);
    let listed = spec_paths(tree, node as int, parents);
    if way.len() == 1 {
        assert(parents + way =~= current);
        assert(listed[0] == current);
    } else {
        let child = way[1];
        assert(is_child(tree, way[0], way[1]));
        let kids = tree[node as int].children;
        let k = choose|k: int| 0 <= k < kids.len() && kids[k] == child;
        assert(node < tree[node as int].children[k] < tree.len());
        let onward = way.skip(1);
        assert(descends(tree, onward)) by {
            assert forall|i: int| 0 <= i < onward.len() - 1 implies is_child(
                tree,
                #[trigger] onward[i],
                onward[i + 1],
            ) by {
                assert(is_child(tree, way[i + 1], way[i + 2]));
            }
        }
        lemma_lists_every_way(tree, child, current, onward);
        assert(current + onward =~= parents + way);
        lemma_below_holds(tree, node, 0, k, current, parents + way);
        let below = spec_paths_below(tree, node as int, 0, current);
        let j = choose|j: int| 0 <= j < below.len() && below[j] == parents + way;
        assert(listed[1 + j] == parents + way);
    }
}

/// Where a path that ends at `target` is listed from the `i`-th on, the
/// first such is found.
proof fn lemma_first_ending_at(paths: Seq<Seq<usize>>, i: int, at: int, target: usize)
    requires
        0 <= i <= at < paths.len(),
        paths[at].len() > 0,
        paths[at].last() == target,
    ensures
        paths.contains(first_ending_at(paths, i, target)),
        first_ending_at(paths, i, target).len() > 0,
        first_ending_at(paths, i, target).last() == target,
    decreases at - i,
{
    if !(paths[i].len() > 0 && paths[i].last() == target) {
        lemma_first_ending_at(paths, i + 1, at, target);
    }
}

/// A child is found under its own name.
proof fn lemma_child_by_name(tree: Seq<NodeView>, parent: usize, k: int)
    requires
        well_formed(tree),
        parent < tree.len(),
        0 <= k < tree[parent as int].children.len(),
    ensures
        spec_child(tree, parent as int, tree[tree[parent as int].children[k] as int].name) == Some(
            tree[parent as int].children[k],
        ),
{
    let kids = tree[parent as int].children;
    let name = tree[kids[k] as int].name;
    lemma_slot_from(tree, kids, name, 0);
    lemma_name_order_total(name, name);
    let slot = slot_from(tree, kids, name, 0);
    if slot > k {
        assert(name_less(tree[kids[k] as int].name, name));
    }
    if slot < k {
        assert(name_less(
            tree[tree[parent as int].children[slot] as int].name,
            tree[tree[parent as int].children[k] as int].name,
        ));
    }
}

/// The names along a way down lead from each of its nodes to its last.
proof fn lemma_names_lead(tree: Seq<NodeView>, way: Seq<usize>, i: int)
    requires
        well_formed(tree),
        descends(tree, way),
        1 <= i <= way.len(),
    ensures
        spec_find_node(tree, way[i - 1] as int, names_along(tree, way, i)) == Some(way.last()),
    decreases way.len() - i,
{
    if i < way.len() {
        let parent = way[i - 1];
        let child = way[i];
        assert(is_child(tree, way[i - 1], way[i]));
        let kids = tree[parent as int].children;
        let k = choose|k: int| 0 <= k < kids.len() && kids[k] == child;
        assert(parent < tree[parent as int].children[k] < tree.len());
        lemma_child_by_name(tree, parent, k);
        lemma_names_lead(tree, way, i + 1);
        let names = names_along(tree, way, i);
        assert(names.skip(1) =~= names_along(tree, way, i + 1));
    }
}

/// The path found for a node leads to that node: where `target` can be
/// reached from the root, looking up the names of its path from the root
/// finds `target`.
pub proof fn lemma_path_finds_target(tree: Seq<NodeView>, target: usize)
    requires
        well_formed(tree),
        reachable(tree, target),
    ensures
        spec_find_node(tree, 0, spec_path(tree, target)) == Some(target),
{
    let way = choose|way: Seq<usize>| leads_to(tree, way, target);
    let none = Seq::<usize>::empty();
    let listed = spec_paths(tree, 0, none);
    lemma_lists_every_way(tree, 0, none, way);
    assert(none + way =~= way);
    let at = choose|at: int| 0 <= at < listed.len() && listed[at] == way;
    lemma_first_ending_at(listed, 0, at, target);
    let found = first_ending_at(listed, 0, target);
    let place = choose|place: int| 0 <= place < listed.len() && listed[place] == found;
    assert(descends(tree, none.push(0usize)));
    lemma_listed_go_down(tree, 0, none);
    assert(goes_down_from(tree, listed[place], none.push(0usize)[0]));
    lemma_names_lead(tree, found, 1);
    assert(names_along(tree, found, 0) == names_along(tree, found, 1));
}

impl CommandDispatcher {
    /// Appends to `result` the paths to `node` and to all nodes below it,
    /// `parents` leading to `node`.
    #[verifier::loop_isolation(false)]
    pub fn add_paths(&self, node: usize, result: &mut Vec<Vec<usize>>, parents: Vec<usize>)
        ensures
            paths_view(final(result)@) == paths_view(old(result)@) + spec_paths(
                self.tree(),
                node as int,
                parents@,
            ),
        decreases self.tree().len() - node,
    {
        let ghost tree = self.tree();
        let ghost start = paths_view(result@);
        let n = match self.node(node) {
            Some(n) => n,
            None => {
                proof {
                    assert(start + Seq::<Seq<usize>>::empty() =~= start);
                }
                return ;
            },
        };
        let mut current = parents;
        current.push(node);
        let copy = current.clone();
        proof {
            assert(copy@ =~= current@);
        }
        result.push(copy);
        proof {
            assert(paths_view(result@) =~= start + seq![current@]);
            assert(paths_view(result@) + spec_paths_below(tree, node as int, 0, current@) =~= start
                + spec_paths(tree, node as int, parents@));
        }
        let mut k: usize = 0;
        while k < n.children.len()
            invariant
                k <= n.children.len(),
                paths_view(result@) + spec_paths_below(tree, node as int, k as int, current@)
                    == start + spec_paths(tree, node as int, parents@),
            decreases n.children.len() - k,
        {
            let child = n.children[k];
            let ghost before = paths_view(result@);
            proof {
                assert(tree[node as int].children[k as int] == child);
                assert(node < child < tree.len());
            }
            let handed = current.clone();
            proof {
                assert(handed@ =~= current@);
            }
            self.add_paths(child, result, handed);
            proof {
                let below = spec_paths(tree, child as int, current@);
                let rest = spec_paths_below(tree, node as int, k + 1, current@);
                assert((before + below) + rest =~= before + (below + rest));
            }
            k = k + 1;
        }
        proof {
            assert(paths_view(result@) + Seq::<Seq<usize>>::empty() =~= paths_view(result@));
        }
    }

    /// The names that lead from the root to `target`.
    #[verifier::loop_isolation(false)]
    pub fn get_path(&self, target: usize) -> (r: Vec<String>)
        ensures
            strings_view(r@) == spec_path(self.tree(), target),
    {
        let ghost tree = self.tree();
        let mut nodes: Vec<Vec<usize>> = Vec::new();
        let parents: Vec<usize> = Vec::new();
        self.add_paths(0, &mut nodes, parents);
        let ghost paths = paths_view(nodes@);
        proof {
            assert(paths =~= spec_paths(tree, 0, Seq::empty()));
        }
        let mut i: usize = 0;
        while i < nodes.len()
            invariant
                i <= nodes.len(),
                first_ending_at(paths, 0, target) == first_ending_at(paths, i as int, target),
            decreases nodes.len() - i,
        {
            let list = &nodes[i];
            proof {
                assert(paths[i as int] == list@);
            }
            if list.len() > 0 && list[list.len() - 1] == target {
                let mut names: Vec<Vec<char>> = Vec::new();
                let mut k: usize = list.len();
                proof {
                    assert(lines_view(names@) =~= names_along(tree, list@, k as int));
                }
                while k > 0
                    invariant
                        k <= list.len(),
                        lines_view(names@) == names_along(tree, list@, k as int),
                    decreases k,
                {
                    k = k - 1;
                    let id = list[k];
                    if id != 0 {
                        match self.node(id) {
                            Some(n) => {
                                let ghost before = lines_view(names@);
                                let name = copy_chars(&n.name);
                                names.insert(0, name);
                                proof {
                                    assert(lines_view(names@) =~= seq![name@] + before);
                                }
                            },
                            None => {},
                        }
                    }
                }
                return lines_to_strings(&names);
            }
            i = i + 1;
        }
        let names: Vec<Vec<char>> = Vec::new();
        proof {
            assert(lines_view(names@) =~= Seq::<Seq<char>>::empty());
        }
        lines_to_strings(&names)
    }
}

} // verus!
