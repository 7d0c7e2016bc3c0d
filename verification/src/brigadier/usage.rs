//! The rendering of the tree as usage lines: every executable path in
//! full, or one line per child with the choices below it folded.

use crate::brigadier::command_dispatcher::CommandDispatcher;
use crate::brigadier::parse_results::{answers_of, can_use, CommandSource};
use crate::brigadier::text::{
    append_chars, chars_to_string, copy_chars, lines_to_strings, lines_view, same_chars,
    strings_view,
};
use crate::brigadier::tree::{NodeKind, NodeView};
use vstd::prelude::*;

verus! {

/// How a node is written in a usage line: a literal by its name, an
/// argument by its name in angle brackets, the root by nothing.
pub open spec fn usage_text(tree: Seq<NodeView>, node: int) -> Seq<char> {
    match tree[node].kind {
        NodeKind::Root => Seq::empty(),
        NodeKind::Literal => tree[node].name,
        NodeKind::Argument(_) => seq!['<'] + tree[node].name + seq!['>'],
    }
}

/// How a redirect is written: `...` to the root, else an arrow and the
/// target.
pub open spec fn redirect_text(tree: Seq<NodeView>, target: int) -> Seq<char> {
    if target == 0 {
        seq!['.', '.', '.']
    } else {
        seq!['-', '>', ' '] + usage_text(tree, target)
    }
}

/// `prefix` and `piece` with a space between, or `piece` alone after an
/// empty prefix.
pub open spec fn extended(prefix: Seq<char>, piece: Seq<char>) -> Seq<char> {
    if prefix.len() == 0 {
        piece
    } else {
        prefix + seq![' '] + piece
    }
}

/// `text` in square brackets where it is optional.
pub open spec fn bracketed(text: Seq<char>, optional: bool) -> Seq<char> {
    if optional {
        seq!['['] + text + seq![']']
    } else {
        text
    }
}

/// The usage lines of the executable paths at and below `node`, each
/// starting with `prefix`. With `restricted`, what the source cannot use is
/// left out.
pub open spec fn spec_all_usage(
    tree: Seq<NodeView>,
    allowed: Seq<bool>,
    node: int,
    prefix: Seq<char>,
    restricted: bool,
) -> Seq<Seq<char>>
    decreases tree.len() - node, 1int, 0int,
{
    if node < 0 || node >= tree.len() || (restricted && !can_use(tree, node, allowed)) {
        Seq::empty()
    } else {
        let own = if tree[node].command is Some {
            seq![prefix]
        } else {
            Seq::empty()
        };
        match tree[node].redirect {
            Some(target) => own.push(
                if prefix.len() == 0 {
                    usage_text(tree, node) + seq![' '] + redirect_text(tree, target as int)
                } else {
                    prefix + seq![' '] + redirect_text(tree, target as int)
                },
            ),
            None => own + spec_all_usage_children(tree, allowed, node, 0, prefix, restricted),
        }
    }
}

/// The usage lines below the children of `node` from the `k`-th on.
pub open spec fn spec_all_usage_children(
    tree: Seq<NodeView>,
    allowed: Seq<bool>,
    node: int,
    k: int,
    prefix: Seq<char>,
    restricted: bool,
) -> Seq<Seq<char>>
    decreases tree.len() - node, 0int, tree[node].children.len() - k,
{
    let kids = tree[node].children;
    if node < 0 || node >= tree.len() || k < 0 || k >= kids.len() {
        Seq::empty()
    } else {
        let child = kids[k] as int;
        let below = if node < child < tree.len() {
            spec_all_usage(
                tree,
                allowed,
                child,
                extended(prefix, usage_text(tree, child)),
                restricted,
            )
        } else {
            Seq::empty()
        };
        below + spec_all_usage_children(tree, allowed, node, k + 1, prefix, restricted)
    }
}

/// The children among `kids` that the source can use, in their order.
pub open spec fn usable(tree: Seq<NodeView>, allowed: Seq<bool>, kids: Seq<usize>) -> Seq<usize>
    decreases kids.len(),
{
    if kids.len() == 0 {
        Seq::empty()
    } else {
        let before = usable(tree, allowed, kids.drop_last());
        if kids.last() < tree.len() && can_use(tree, kids.last() as int, allowed) {
            before.push(kids.last())
        } else {
            before
        }
    }
}

/// Whether the nodes `kids` from the `k`-th on are all written as the
/// first of them is.
pub open spec fn all_written_alike(tree: Seq<NodeView>, kids: Seq<usize>, k: int) -> bool
    decreases kids.len() - k,
{
    if k < 0 || k >= kids.len() {
        true
    } else {
        usage_text(tree, kids[k] as int) == usage_text(tree, kids[0] as int) && all_written_alike(
            tree,
            kids,
            k + 1,
        )
    }
}

/// The nodes `kids` from the `k`-th on as they are written, with a bar
/// before each but the first.
pub open spec fn joined(tree: Seq<NodeView>, kids: Seq<usize>, k: int) -> Seq<char>
    decreases kids.len() - k,
{
    if k < 0 || k >= kids.len() {
        Seq::empty()
    } else {
        (if k > 0 {
            seq!['|']
        } else {
            Seq::empty()
        }) + usage_text(tree, kids[k] as int) + joined(tree, kids, k + 1)
    }
}

/// The folded usage of `node`: nothing where the source cannot use it;
/// else the node as it is written, in brackets where `optional`, and after
/// it, unless `deep`, what follows: the redirect; or the folded usage of an
/// only child; or, of several children, the one way they are all written,
/// or their list between round brackets, or square ones where `node` is
/// executable itself.
pub open spec fn spec_smart_usage(
    tree: Seq<NodeView>,
    allowed: Seq<bool>,
    node: int,
    optional: bool,
    deep: bool,
) -> Option<Seq<char>>
    decreases tree.len() - node,
{
    if node < 0 || node >= tree.len() || !can_use(tree, node, allowed) {
        None
    } else {
        let this = bracketed(usage_text(tree, node), optional);
        let child_optional = tree[node].command is Some;
        if deep {
            Some(this)
        } else {
            match tree[node].redirect {
                Some(target) => Some(this + seq![' '] + redirect_text(tree, target as int)),
                None => {
                    let kids = usable(tree, allowed, tree[node].children);
                    if kids.len() == 0 {
                        Some(this)
                    } else if kids.len() == 1 {
                        let child = kids[0] as int;
                        if node < child < tree.len() {
                            match spec_smart_usage(
                                tree,
                                allowed,
                                child,
                                child_optional,
                                child_optional,
                            ) {
                                Some(below) => Some(this + seq![' '] + below),
                                None => Some(this),
                            }
                        } else {
                            Some(this)
                        }
                    } else if all_written_alike(tree, kids, 0) {
                        Some(
                            this + seq![' '] + bracketed(
                                bracketed(usage_text(tree, kids[0] as int), child_optional),
                                child_optional,
                            ),
                        )
                    } else {
                        Some(
                            this + seq![' '] + seq![
                                if child_optional {
                                    '['
                                } else {
                                    '('
                                },
                            ] + joined(tree, kids, 0) + seq![
                                if child_optional {
                                    ']'
                                } else {
                                    ')'
                                },
                            ],
                        )
                    }
                },
            }
        }
    }
}

/// The folded usages of the children of `node` from the `k`-th on, each
/// with its child; none for a node that is not in the tree.
pub open spec fn spec_smart_usages(
    tree: Seq<NodeView>,
    allowed: Seq<bool>,
    node: int,
    k: int,
) -> Seq<(usize, Seq<char>)>
    decreases tree[node].children.len() - k,
{
    let kids = tree[node].children;
    if node < 0 || node >= tree.len() || k < 0 || k >= kids.len() {
        Seq::empty()
    } else {
        let rest = spec_smart_usages(tree, allowed, node, k + 1);
        match spec_smart_usage(tree, allowed, kids[k] as int, tree[node].command is Some, false) {
            Some(text) => seq![(kids[k], text)] + rest,
            None => rest,
        }
    }
}

/// The texts of a list of children with their usages.
pub open spec fn usages_view(list: Seq<(usize, String)>) -> Seq<(usize, Seq<char>)> {
    Seq::new(list.len(), |i: int| (list[i].0, list[i].1@))
}

impl CommandDispatcher {
    /// How node `node` is written in a usage line.
    pub fn usage_text(&self, node: usize) -> (r: Vec<char>)
        requires
            node < self.tree().len(),
        ensures
            r@ == usage_text(self.tree(), node as int),
    {
        let n = match self.node(node) {
            Some(n) => n,
            None => { return Vec::new(); },
        };
        match n.kind {
            NodeKind::Root => Vec::new(),
            NodeKind::Literal => copy_chars(&n.name),
            NodeKind::Argument(_) => {
                let mut out: Vec<char> = Vec::new();
                out.push('<');
                append_chars(&mut out, &n.name);
                out.push('>');
                proof {
                    assert(out@ =~= seq!['<'] + n.name@ + seq!['>']);
                }
                out
            },
        }
    }

    /// How a redirect to `target` is written.
    pub fn redirect_text(&self, target: usize) -> (r: Vec<char>)
        requires
            target < self.tree().len(),
        ensures
            r@ == redirect_text(self.tree(), target as int),
    {
        let mut out: Vec<char> = Vec::new();
        if target == 0 {
            out.push('.');
            out.push('.');
            out.push('.');
            proof {
                assert(out@ =~= seq!['.', '.', '.']);
            }
        } else {
            out.push('-');
            out.push('>');
            out.push(' ');
            let text = self.usage_text(target);
            append_chars(&mut out, &text);
            proof {
                assert(out@ =~= seq!['-', '>', ' '] + text@);
            }
        }
        out
    }

    /// The usage lines of all executable paths at and below `node`; none
    /// for a node that is not in the tree. With `restricted`, what `source`
    /// cannot use is left out.
    pub fn get_all_usage<S: CommandSource>(&self, node: usize, source: &S, restricted: bool) -> (r:
        Vec<String>)
        ensures
            exists|allowed: Seq<bool>| #[trigger]
                answers_of(source, self.tree(), allowed) && strings_view(r@) == spec_all_usage(
                    self.tree(),
                    allowed,
                    node as int,
                    Seq::empty(),
                    restricted,
                ),
    {
        let allowed = self.answers(source);
        let mut result: Vec<Vec<char>> = Vec::new();
        let prefix: Vec<char> = Vec::new();
        if node < self.len() {
            self.get_all_usage_recursive(node, &allowed, &mut result, &prefix, restricted);
        }
        proof {
            assert(lines_view(result@) =~= spec_all_usage(
                self.tree(),
                allowed@,
                node as int,
                Seq::empty(),
                restricted,
            ));
        }
        lines_to_strings(&result)
    }

    /// Appends to `result` the usage lines at and below `node`, each
    /// starting with `prefix`.
    #[verifier::loop_isolation(false)]
    fn get_all_usage_recursive(
        &self,
        node: usize,
        allowed: &Vec<bool>,
        result: &mut Vec<Vec<char>>,
        prefix: &Vec<char>,
        restricted: bool,
    )
        requires
            node < self.tree().len(),
        ensures
            lines_view(final(result)@) == lines_view(old(result)@) + spec_all_usage(
                self.tree(),
                allowed@,
                node as int,
                prefix@,
                restricted,
            ),
        decreases self.tree().len() - node,
    {
        let ghost tree = self.tree();
        let ghost start = lines_view(result@);
        let n = match self.node(node) {
            Some(n) => n,
            None => { return ; },
        };
        if restricted && !(node < allowed.len() && allowed[node]) {
            proof {
                assert(start + Seq::<Seq<char>>::empty() =~= start);
            }
            return ;
        }
        let ghost own = if n.command is Some {
            seq![prefix@]
        } else {
            Seq::<Seq<char>>::empty()
        };
        if n.command.is_some() {
            result.push(copy_chars(prefix));
        }
        proof {
            assert(lines_view(result@) =~= start + own);
        }
        match n.redirect {
            Some(target) => {
                let mut line: Vec<char> = if prefix.len() == 0 {
                    self.usage_text(node)
                } else {
                    copy_chars(prefix)
                };
                let ghost head = line@;
                line.push(' ');
                let redirect = self.redirect_text(target);
                append_chars(&mut line, &redirect);
                let ghost whole = line@;
                proof {
                    assert(whole =~= head + seq![' '] + redirect@);
                    assert(tree[node as int].redirect == Some(target));
                }
                result.push(line);
                proof {
                    assert(lines_view(result@) =~= start + own.push(whole));
                }
            },
            None => {
                let mut k: usize = 0;
                proof {
                    assert(lines_view(result@) + spec_all_usage_children(
                        tree,
                        allowed@,
                        node as int,
                        0,
                        prefix@,
                        restricted,
                    ) =~= start + (own + spec_all_usage_children(
                        tree,
                        allowed@,
                        node as int,
                        0,
                        prefix@,
                        restricted,
                    )));
                }
                while k < n.children.len()
                    invariant
                        k <= n.children.len(),
                        lines_view(result@) + spec_all_usage_children(
                            tree,
                            allowed@,
                            node as int,
                            k as int,
                            prefix@,
                            restricted,
                        ) == start + spec_all_usage(
                            tree,
                            allowed@,
                            node as int,
                            prefix@,
                            restricted,
                        ),
                    decreases n.children.len() - k,
                {
                    let child = n.children[k];
                    let ghost before = lines_view(result@);
                    proof {
                        assert(tree[node as int].children[k as int] == child);
                        assert(node < child < tree.len());
                    }
                    let text = self.usage_text(child);
                    let mut child_prefix: Vec<char> = Vec::new();
                    if prefix.len() == 0 {
                        append_chars(&mut child_prefix, &text);
                        proof {
                            assert(child_prefix@ =~= extended(prefix@, text@));
                        }
                    } else {
                        append_chars(&mut child_prefix, prefix);
                        child_prefix.push(' ');
                        append_chars(&mut child_prefix, &text);
                        proof {
                            assert(child_prefix@ =~= extended(prefix@, text@));
                        }
                    }
                    self.get_all_usage_recursive(child, allowed, result, &child_prefix, restricted);
                    proof {
                        let below = spec_all_usage(
                            tree,
                            allowed@,
                            child as int,
                            child_prefix@,
                            restricted,
                        );
                        let rest = spec_all_usage_children(
                            tree,
                            allowed@,
                            node as int,
                            k + 1,
                            prefix@,
                            restricted,
                        );
                        assert((before + below) + rest =~= before + (below + rest));
                    }
                    k = k + 1;
                }
                proof {
                    assert(lines_view(result@) + Seq::<Seq<char>>::empty() =~= lines_view(
                        result@,
                    ));
                }
            },
        }
    }

    /// The children of `node` that `source` can use.
    #[verifier::loop_isolation(false)]
    fn usable_children(&self, node: usize, allowed: &Vec<bool>) -> (r: Vec<usize>)
        requires
            node < self.tree().len(),
        ensures
            r@ == usable(self.tree(), allowed@, self.tree()[node as int].children),
            forall|j: int| 0 <= j < r@.len() ==> node < (#[trigger] r@[j]) < self.tree().len(),
    {
        let ghost tree = self.tree();
        let n = match self.node(node) {
            Some(n) => n,
            None => { return Vec::new(); },
        };
        let kids = &n.children;
        let mut out: Vec<usize> = Vec::new();
        let mut k: usize = 0;
        proof {
            assert(kids@.take(0) =~= Seq::<usize>::empty());
        }
        while k < kids.len()
            invariant
                k <= kids.len(),
                out@ == usable(tree, allowed@, kids@.take(k as int)),
                forall|j: int| 0 <= j < out@.len() ==> node < (#[trigger] out@[j]) < tree.len(),
            decreases kids.len() - k,
        {
            let child = kids[k];
            proof {
                assert(tree[node as int].children[k as int] == child);
                assert(node < child < tree.len());
                assert(kids@.take(k + 1).drop_last() =~= kids@.take(k as int));
                assert(kids@.take(k + 1).last() == child);
            }
            if child < allowed.len() && allowed[child] {
                out.push(child);
            }
            k = k + 1;
        }
        proof {
            assert(kids@.take(kids.len() as int) =~= kids@);
        }
        out
    }

    /// `text` in square brackets where it is optional.
    fn bracket(text: Vec<char>, optional: bool) -> (r: Vec<char>)
        ensures
            r@ == bracketed(text@, optional),
    {
        if optional {
            let mut out: Vec<char> = Vec::new();
            out.push('[');
            append_chars(&mut out, &text);
            out.push(']');
            proof {
                assert(out@ =~= seq!['['] + text@ + seq![']']);
            }
            out
        } else {
            text
        }
    }

    /// One usage line for each child of `node` that `source` can use: the
    /// child as it is written and, folded, what can follow it.
    #[verifier::loop_isolation(false)]
    pub fn get_smart_usage<S: CommandSource>(&self, node: usize, source: &S) -> (r: Vec<
        (usize, String),
    >)
        ensures
            exists|allowed: Seq<bool>| #[trigger]
                answers_of(source, self.tree(), allowed) && usages_view(r@) == spec_smart_usages(
                    self.tree(),
                    allowed,
                    node as int,
                    0,
                ),
    {
        let ghost tree = self.tree();
        let allowed = self.answers(source);
        let mut result: Vec<(usize, String)> = Vec::new();
        let n = match self.node(node) {
            Some(n) => n,
            None => {
                proof {
                    assert(usages_view(result@) =~= spec_smart_usages(
                        tree,
                        allowed@,
                        node as int,
                        0,
                    ));
                }
                return result;
            },
        };
        let optional = n.command.is_some();
        let mut k: usize = n.children.len();
        proof {
            assert(usages_view(result@) =~= spec_smart_usages(tree, allowed@, node as int, k as int));
        }
        while k > 0
            invariant
                k <= n.children.len(),
                usages_view(result@) == spec_smart_usages(tree, allowed@, node as int, k as int),
            decreases k,
        {
            k = k - 1;
            let child = n.children[k];
            proof {
                assert(tree[node as int].children[k as int] == child);
                assert(node < child < tree.len());
            }
            let ghost before = usages_view(result@);
            match self.get_smart_usage_recursive(child, &allowed, optional, false) {
                Some(usage) => {
                    let text = chars_to_string(&usage);
                    result.insert(0, (child, text));
                    proof {
                        assert(usages_view(result@) =~= seq![(child, usage@)] + before);
                    }
                },
                None => {},
            }
        }
        result
    }

    /// The folded usage of `node`.
    #[verifier::loop_isolation(false)]
    fn get_smart_usage_recursive(
        &self,
        node: usize,
        allowed: &Vec<bool>,
        optional: bool,
        deep: bool,
    ) -> (r: Option<Vec<char>>)
        requires
            node < self.tree().len(),
        ensures
            match spec_smart_usage(self.tree(), allowed@, node as int, optional, deep) {
                Some(text) => r matches Some(got) && got@ == text,
                None => r is None,
            },
        decreases self.tree().len() - node,
    {
        let ghost tree = self.tree();
        let n = match self.node(node) {
            Some(n) => n,
            None => { return None; },
        };
        if !(node < allowed.len() && allowed[node]) {
            return None;
        }
        let mut this = Self::bracket(self.usage_text(node), optional);
        let child_optional = n.command.is_some();
        if deep {
            return Some(this);
        }
        let ghost head = this@;
        if let Some(target) = n.redirect {
            this.push(' ');
            let redirect = self.redirect_text(target);
            append_chars(&mut this, &redirect);
            proof {
                assert(this@ =~= head + seq![' '] + redirect@);
            }
            return Some(this);
        }
        let kids = self.usable_children(node, allowed);
        if kids.len() == 0 {
            return Some(this);
        }
        if kids.len() == 1 {
            let child = kids[0];
            match self.get_smart_usage_recursive(child, allowed, child_optional, child_optional) {
                Some(below) => {
                    this.push(' ');
                    append_chars(&mut this, &below);
                    proof {
                        assert(this@ =~= head + seq![' '] + below@);
                    }
                },
                None => {},
            }
            return Some(this);
        }
        let first = self.usage_text(kids[0]);
        let mut alike = true;
        let mut list: Vec<char> = Vec::new();
        let mut k: usize = kids.len();
        while k > 0
            invariant
                k <= kids.len(),
                alike == all_written_alike(tree, kids@, k as int),
                list@ == joined(tree, kids@, k as int),
                first@ == usage_text(tree, kids@[0] as int),
            decreases k,
        {
            k = k - 1;
            let text = self.usage_text(kids[k]);
            if !same_chars(&text, &first) {
                alike = false;
            }
            let mut piece: Vec<char> = Vec::new();
            if k > 0 {
                piece.push('|');
            }
            append_chars(&mut piece, &text);
            append_chars(&mut piece, &list);
            proof {
                assert(piece@ =~= joined(tree, kids@, k as int));
            }
            list = piece;
        }
        this.push(' ');
        if alike {
            let inner = Self::bracket(Self::bracket(first, child_optional), child_optional);
            append_chars(&mut this, &inner);
            proof {
                assert(this@ =~= head + seq![' '] + inner@);
            }
        } else {
            let open = if child_optional {
                '['
            } else {
                '('
            };
            let close = if child_optional {
                ']'
            } else {
                ')'
            };
            this.push(open);
            append_chars(&mut this, &list);
            this.push(close);
            proof {
                assert(this@ =~= head + seq![' '] + seq![open] + list@ + seq![close]);
            }
        }
        Some(this)
    }
}

} // verus!
