//! What a parse has gathered so far: the nodes passed, the arguments read,
//! the action to run, and the context that a redirect continues in.

use crate::brigadier::arguments::ArgumentValue;
use crate::brigadier::errors::StringRange;
use vstd::prelude::*;

verus! {

/// A node that the parse passed, and the span of input it took.
#[derive(Clone, Copy, Debug, PartialEq, Eq, Structural)]
pub struct ParsedNode {
    pub node: usize,
    pub range: StringRange,
}

/// An argument that the parse read: its node, the span of input it took,
/// and its value.
#[derive(Clone, Copy, Debug, PartialEq, Eq, Structural)]
pub struct ParsedArgument {
    pub node: usize,
    pub range: StringRange,
    pub value: ArgumentValue,
}

/// The state of a parse below one root: the tree's own root, or the target
/// of a redirect.
#[derive(Debug, PartialEq, Eq)]
pub struct CommandContext {
    /// The node that this part of the parse started from.
    pub root: usize,
    /// The nodes passed, in order.
    pub nodes: Vec<ParsedNode>,
    /// The arguments read, in order.
    pub arguments: Vec<ParsedArgument>,
    /// The action of the last node passed that has one, if any has.
    pub command: Option<u32>,
    /// The span of input that the nodes took.
    pub range: StringRange,
    /// The context that a redirect continued in.
    pub child: Option<Box<CommandContext>>,
}

/// The mathematical value of a `CommandContext`.
pub struct ContextView {
    pub root: usize,
    pub nodes: Seq<ParsedNode>,
    pub arguments: Seq<ParsedArgument>,
    pub command: Option<u32>,
    pub range: StringRange,
    pub child: Option<Box<ContextView>>,
}

impl ContextView {
    /// The context of a parse that starts from `root` at `start`.
    pub open spec fn new(root: usize, start: usize) -> ContextView {
        ContextView {
            root,
            nodes: Seq::empty(),
            arguments: Seq::empty(),
            command: None,
            range: StringRange { start, end: start },
            child: None,
        }
    }

    /// This context after `node` took `range`.
    pub open spec fn with_node(self, node: usize, range: StringRange) -> ContextView {
        ContextView {
            nodes: self.nodes.push(ParsedNode { node, range }),
            range: StringRange::spec_encompassing(self.range, range),
            ..self
        }
    }

    /// This context after `argument` was read.
    pub open spec fn with_argument(self, argument: ParsedArgument) -> ContextView {
        ContextView { arguments: self.arguments.push(argument), ..self }
    }

    /// This context with `command` as the command to run.
    pub open spec fn with_command(self, command: Option<u32>) -> ContextView {
        ContextView { command, ..self }
    }

    /// This context after a node with the action `action` was passed: the
    /// action is the one to run; a node without one leaves the action
    /// that an earlier node gave.
    pub open spec fn with_action(self, action: Option<u32>) -> ContextView {
        match action {
            Some(_) => self.with_command(action),
            None => self,
        }
    }

    /// This context, continued in `child`.
    pub open spec fn with_child(self, child: ContextView) -> ContextView {
        ContextView { child: Some(Box::new(child)), ..self }
    }

    /// The last context of the chain that starts here.
    pub open spec fn last(self) -> ContextView
        decreases self,
    {
        match self.child {
            Some(c) => c.last(),
            None => self,
        }
    }

    /// The actions of the chain that starts here, in the order of the
    /// chain: of each context that has one, its action and the context
    /// itself, in which the action runs.
    pub open spec fn actions(self) -> Seq<(u32, ContextView)>
        decreases self,
    {
        let own = match self.command {
            Some(action) => seq![(action, self)],
            None => Seq::empty(),
        };
        match self.child {
            Some(c) => own + c.actions(),
            None => own,
        }
    }

    /// The number of contexts in the chain that starts here.
    pub open spec fn depth(self) -> nat
        decreases self,
    {
        match self.child {
            Some(c) => 1 + c.depth(),
            None => 1,
        }
    }
}

/// The last of `arguments` that was read for node `node`, if any was.
pub open spec fn last_argument(arguments: Seq<ParsedArgument>, node: usize) -> Option<
    ParsedArgument,
>
    decreases arguments.len(),
{
    if arguments.len() == 0 {
        None
    } else if arguments.last().node == node {
        Some(arguments.last())
    } else {
        last_argument(arguments.drop_last(), node)
    }
}

impl View for CommandContext {
    type V = ContextView;

    open spec fn view(&self) -> ContextView {
        self.as_view()
    }
}

impl Clone for CommandContext {
    fn clone(&self) -> (r: Self)
        ensures
            r@ == self@,
        decreases self,
    {
        let nodes = self.nodes.clone();
        let arguments = self.arguments.clone();
        assert(nodes@ =~= self.nodes@);
        assert(arguments@ =~= self.arguments@);
        let child = match &self.child {
            Some(c) => Some(Box::new((&**c).clone())),
            None => None,
        };
        CommandContext {
            root: self.root,
            nodes,
            arguments,
            command: self.command,
            range: self.range,
            child,
        }
    }
}

impl CommandContext {
    /// The mathematical value of this context and of those it continues in.
    pub open spec fn as_view(&self) -> ContextView
        decreases self,
    {
        ContextView {
            root: self.root,
            nodes: self.nodes@,
            arguments: self.arguments@,
            command: self.command,
            range: self.range,
            child: match self.child {
                Some(c) => Some(Box::new(c.as_view())),
                None => None,
            },
        }
    }

    /// The context of a parse that starts from `root` at `start`.
    pub fn new(root: usize, start: usize) -> (r: Self)
        ensures
            r@ == ContextView::new(root, start),
    {
        CommandContext {
            root,
            nodes: Vec::new(),
            arguments: Vec::new(),
            command: None,
            range: StringRange { start, end: start },
            child: None,
        }
    }

    /// Records that `node` took `range`.
    pub fn with_node(&mut self, node: usize, range: StringRange)
        ensures
            final(self)@ == old(self)@.with_node(node, range),
    {
        self.nodes.push(ParsedNode { node, range });
        self.range = StringRange::encompassing(&self.range, &range);
    }

    /// Records that `argument` was read.
    pub fn with_argument(&mut self, argument: ParsedArgument)
        ensures
            final(self)@ == old(self)@.with_argument(argument),
    {
        self.arguments.push(argument);
    }

    /// Sets the command to run.
    pub fn with_command(&mut self, command: Option<u32>)
        ensures
            final(self)@ == old(self)@.with_command(command),
    {
        self.command = command;
    }

    /// Notes that a node with the action `action` was passed: the action
    /// is the one to run; a node without one leaves the action that an
    /// earlier node gave.
    pub fn with_action(&mut self, action: Option<u32>)
        ensures
            final(self)@ == old(self)@.with_action(action),
    {
        if action.is_some() {
            self.command = action;
        }
    }

    /// Continues this context in `child`.
    pub fn with_child(&mut self, child: CommandContext)
        ensures
            final(self)@ == old(self)@.with_child(child@),
    {
        self.child = Some(Box::new(child));
    }

    /// The argument read last for node `node`, if any was.
    pub fn argument(&self, node: usize) -> (r: Option<ParsedArgument>)
        ensures
            r == last_argument(self@.arguments, node),
    {
        let mut i = self.arguments.len();
        proof {
            assert(self.arguments@.take(i as int) =~= self.arguments@);
        }
        while i > 0
            invariant
                i <= self.arguments.len(),
                last_argument(self.arguments@, node) == last_argument(
                    self.arguments@.take(i as int),
                    node,
                ),
            decreases i,
        {
            proof {
                assert(self.arguments@.take(i as int).drop_last() =~= self.arguments@.take(
                    i - 1,
                ));
            }
            i = i - 1;
            if self.arguments[i].node == node {
                return Some(self.arguments[i]);
            }
        }
        None
    }

    /// The last context of the chain that starts here.
    pub fn last(&self) -> (r: &CommandContext)
        ensures
            r@ == self@.last(),
        decreases self,
    {
        match &self.child {
            Some(c) => c.last(),
            None => self,
        }
    }
}

} // verus!
