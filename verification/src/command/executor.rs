use vstd::prelude::*;
use vstd::string::{StrSliceExecFns, StringExecFns, StringSliceAdditionalSpecFns};
use vstd::utf8::{decode_utf8, encode_utf8, is_char_boundary};
use crate::command::arg::{ArgumentTraverser, scan_end};

verus! {

/// The value an argument of a command takes.
#[derive(Debug)]
pub enum Argument {
    /// Matches any text.
    Any,
    /// Matches its literal text, ignoring ASCII case.
    Literal(String),
    /// An integer value.
    Integer(i64),
    /// A floating-point value, held as the bits of its IEEE 754 double.
    FloatingPoint(u64),
    /// A text value.
    String(String),
}

/// The content of an argument.
pub enum ArgView {
    Any,
    Literal(Seq<char>),
    Integer(i64),
    FloatingPoint(u64),
    Str(Seq<char>),
}

/// The content of `a`.
pub open spec fn arg_view(a: Argument) -> ArgView {
    match a {
        Argument::Any => ArgView::Any,
        Argument::Literal(l) => ArgView::Literal(l@),
        Argument::Integer(v) => ArgView::Integer(v),
        Argument::FloatingPoint(v) => ArgView::FloatingPoint(v),
        Argument::String(s) => ArgView::Str(s@),
    }
}

/// An ASCII letter in lower case; other bytes unchanged.
pub open spec fn ascii_lower(b: u8) -> u8 {
    if 65 <= b <= 90 {
        (b + 32) as u8
    } else {
        b
    }
}

/// Whether two byte strings are equal when ASCII letters are compared without case.
pub open spec fn eq_ignore_ascii_case(a: Seq<u8>, b: Seq<u8>) -> bool {
    a.len() == b.len() && forall|i: int| 0 <= i < a.len() ==> ascii_lower(a[i]) == ascii_lower(b[i])
}

/// Whether an argument accepts the text whose bytes are `arg`: any text for `Any`, its own text
/// without regard to ASCII case for a literal, nothing otherwise.
pub open spec fn arg_matches(a: ArgView, arg: Seq<u8>) -> bool {
    match a {
        ArgView::Any => true,
        ArgView::Literal(l) => eq_ignore_ascii_case(encode_utf8(l), arg),
        _ => false,
    }
}

/// A node of a command tree: its name, the argument it reads, the executor run when a command
/// ends at it (an index into the caller's table of executors), its children, and whether it
/// is taken by default when no argument is left.
pub struct CommandNode {
    pub name: String,
    pub argument: Argument,
    pub executor: Option<usize>,
    pub children: Vec<CommandNode>,
    pub default: bool,
}

/// The content of a node.
pub struct NodeView {
    pub name: Seq<char>,
    pub argument: ArgView,
    pub executor: Option<usize>,
    pub children: Seq<NodeView>,
    pub default: bool,
}

/// The content of `n`.
pub open spec fn node_view(n: CommandNode) -> NodeView
    decreases n,
{
    NodeView {
        name: n.name@,
        argument: arg_view(n.argument),
        executor: n.executor,
        children: nodes_view(n.children@),
        default: n.default,
    }
}

/// The contents of nodes.
pub open spec fn nodes_view(s: Seq<CommandNode>) -> Seq<NodeView>
    decreases s,
{
    Seq::new(s.len(), |i: int| if 0 <= i < s.len() { node_view(s[i]) } else { leaf_view() })
}

/// A node with no name, argument, executor or children.
pub open spec fn leaf_view() -> NodeView {
    NodeView { name: Seq::empty(), argument: ArgView::Any, executor: None, children: Seq::empty(), default: false }
}

/// The named argument values a command has collected, the latest value of a name in place of
/// the earlier one.
pub open spec fn set_argument(args: Seq<(Seq<char>, ArgView)>, name: Seq<char>, a: ArgView) -> Seq<(Seq<char>, ArgView)> {
    match first_named(args, name) {
        Some(i) => args.update(i, (name, a)),
        None => args.push((name, a)),
    }
}

/// The position of the first entry named `name`.
pub open spec fn first_named(args: Seq<(Seq<char>, ArgView)>, name: Seq<char>) -> Option<int> {
    if exists|i: int| 0 <= i < args.len() && args[i].0 == name && forall|j: int| 0 <= j < i ==> args[j].0 != name {
        Some(choose|i: int| 0 <= i < args.len() && args[i].0 == name && forall|j: int| 0 <= j < i ==> args[j].0 != name)
    } else {
        None
    }
}

/// What dispatching a command does, in order.
pub enum ActionView {
    /// Sends the text to the sender, in red.
    Message(Seq<char>),
    /// Runs the executor with the collected arguments.
    Execute(usize, Seq<(Seq<char>, ArgView)>),
}

/// The first child that accepts the argument whose bytes are `arg`.
pub open spec fn first_match(children: Seq<NodeView>, arg: Seq<u8>) -> Option<int> {
    if exists|i: int|
        0 <= i < children.len() && arg_matches(children[i].argument, arg) && forall|j: int|
            0 <= j < i ==> !arg_matches(children[j].argument, arg) {
        Some(choose|i: int|
            0 <= i < children.len() && arg_matches(children[i].argument, arg) && forall|j: int|
                0 <= j < i ==> !arg_matches(children[j].argument, arg))
    } else {
        None
    }
}

/// The first child taken by default.
pub open spec fn first_default(children: Seq<NodeView>) -> Option<int> {
    if exists|i: int| 0 <= i < children.len() && children[i].default && forall|j: int| 0 <= j < i ==> !children[j].default {
        Some(choose|i: int| 0 <= i < children.len() && children[i].default && forall|j: int| 0 <= j < i ==> !children[j].default)
    } else {
        None
    }
}

/// The names of the children after the first, each after a comma and a space.
pub open spec fn names_tail(children: Seq<NodeView>) -> Seq<char>
    decreases children.len(),
{
    if children.len() <= 1 {
        Seq::empty()
    } else {
        names_tail(children.drop_last()) + ", "@ + children.last().name
    }
}

/// The message listing the arguments a node expects.
pub open spec fn expected_message(children: Seq<NodeView>) -> Seq<char> {
    "Expected one of the following arguments: "@ + children[0].name + names_tail(children)
}

/// The text of the command from byte `start` on, cut to 35 bytes; `None` where the cut would
/// split a character.
pub open spec fn remaining_text(bytes: Seq<u8>, start: int) -> Option<Seq<char>> {
    if bytes.len() - start > 35 {
        if is_char_boundary(bytes, start + 35) {
            Some(decode_utf8(bytes.subrange(start, start + 35)))
        } else {
            None
        }
    } else {
        Some(decode_utf8(bytes.subrange(start, bytes.len() as int)))
    }
}

/// The end of the argument that starts at byte `i`.
pub open spec fn arg_end(bytes: Seq<u8>, i: int) -> int {
    scan_end(bytes, i, false, 0, false)
}

/// The actions of running a node's executor, if it has one, with no collected arguments.
pub open spec fn run_plain(node: NodeView) -> Seq<ActionView> {
    match node.executor {
        Some(e) => seq![ActionView::Execute(e, Seq::empty())],
        None => Seq::empty(),
    }
}

/// An argument ends no earlier than it starts.
pub proof fn lemma_arg_end_after(bytes: Seq<u8>, i: int, in_quotes: bool, quote: u8, ignore_quote: bool)
    ensures
        scan_end(bytes, i, in_quotes, quote, ignore_quote) >= i,
        i >= 0 ==> scan_end(bytes, i, in_quotes, quote, ignore_quote) <= if i > bytes.len() { i } else { bytes.len() as int },
    decreases bytes.len() - i,
{
    if !(i < 0 || i >= bytes.len() || (!in_quotes && bytes[i] == 0x20)) {
        let b = bytes[i];
        let is_quote = (b == 0x27 || b == 0x22) && !ignore_quote;
        let in_q = if is_quote {
            if in_quotes {
                !(b == quote)
            } else {
                true
            }
        } else {
            in_quotes
        };
        let q = if is_quote && !in_quotes {
            b
        } else {
            quote
        };
        lemma_arg_end_after(bytes, i + 1, in_q, q, in_q && b == 0x5C);
    }
}

/// Walking the arguments from byte `i` on, from `node`, after the actions `acts`: the node
/// reached and the actions so far, with `true` when the walk ended the command early (extra
/// arguments at a node without children); `None` where it would panic.
pub open spec fn walk(node: NodeView, bytes: Seq<u8>, i: int, acts: Seq<ActionView>) -> Option<(NodeView, Seq<ActionView>, bool)>
    decreases bytes.len() + 1 - i,
{
    if i < 0 || i >= bytes.len() {
        Some((node, acts, false))
    } else {
        let end = arg_end(bytes, i);
        let arg = bytes.subrange(i, end);
        proof {
            lemma_arg_end_after(bytes, i, false, 0, false);
        }
        if node.children.len() == 0 {
            match remaining_text(bytes, i) {
                None => None,
                Some(rest) => Some((
                    node,
                    acts.push(ActionView::Message("Ignoring the following arguments: \""@ + rest + "\""@)) + run_plain(node),
                    true,
                )),
            }
        } else {
            match first_match(node.children, arg) {
                Some(k) => {
                    proof {
                        assert(0 <= k < node.children.len());
                    }
                    walk(node.children[k], bytes, end + 1, acts)
                },
                None => {
                    let msg = if node.children.len() == 1 {
                        "Invalid value for argument \""@ + node.children[0].name + "\": \""@ + decode_utf8(arg) + "\""@
                    } else {
                        expected_message(node.children)
                    };
                    walk(node, bytes, end + 1, acts.push(ActionView::Message(msg)))
                },
            }
        }
    }
}

/// Following default children from `node`, collecting their arguments.
pub open spec fn follow_defaults(node: NodeView, args: Seq<(Seq<char>, ArgView)>) -> (NodeView, Seq<(Seq<char>, ArgView)>)
    decreases node,
{
    if node.children.len() == 0 {
        (node, args)
    } else {
        match first_default(node.children) {
            Some(k) => {
                proof {
                    assert(0 <= k < node.children.len());
                }
                follow_defaults(
                    node.children[k],
                    set_argument(args, node.children[k].name, node.children[k].argument),
                )
            },
            None => (node, args),
        }
    }
}

/// The actions at the node a command ends at: its executor with the collected arguments, or,
/// without one, the message naming what is expected.
pub open spec fn finish_actions(node: NodeView, args: Seq<(Seq<char>, ArgView)>) -> Seq<ActionView> {
    match node.executor {
        Some(e) => seq![ActionView::Execute(e, args)],
        None => if node.children.len() == 1 {
            seq![ActionView::Message("Expected value for argument \""@ + node.children[0].name + "\""@)]
        } else if node.children.len() > 1 {
            seq![ActionView::Message(expected_message(node.children))]
        } else {
            Seq::empty()
        },
    }
}

/// The name a root node is registered under: its literal.
pub open spec fn root_key(n: NodeView) -> Seq<char> {
    match n.argument {
        ArgView::Literal(l) => l,
        _ => Seq::empty(),
    }
}

/// The registered root whose name is the text with bytes `name`.
pub open spec fn find_root(roots: Seq<NodeView>, name: Seq<u8>) -> Option<int> {
    if exists|i: int| 0 <= i < roots.len() && encode_utf8(root_key(roots[i])) == name {
        Some(choose|i: int| 0 <= i < roots.len() && encode_utf8(root_key(roots[i])) == name)
    } else {
        None
    }
}

/// What dispatching the command with bytes `bytes` does among the registered roots; `None`
/// where it would panic.
pub open spec fn dispatch_spec(roots: Seq<NodeView>, bytes: Seq<u8>) -> Option<Seq<ActionView>> {
    if bytes.len() == 0 {
        Some(Seq::empty())
    } else {
        let end = arg_end(bytes, 0);
        let name = bytes.subrange(0, end);
        match find_root(roots, name) {
            None => Some(seq![ActionView::Message("No command found named \""@ + decode_utf8(name) + "\""@)]),
            Some(r) => match walk(roots[r], bytes, end + 1, Seq::empty()) {
                None => None,
                Some((node, acts, early)) => if early {
                    Some(acts)
                } else {
                    let (last, args) = follow_defaults(node, Seq::empty());
                    Some(acts + finish_actions(last, args))
                },
            },
        }
    }
}

/// What dispatching a command asks the caller to do.
#[derive(Debug)]
pub enum Action {
    /// Send the text to the sender, in red.
    Message(String),
    /// Run the executor with the collected arguments.
    Execute(usize, Vec<(String, Argument)>),
}

/// The collected arguments as names and contents.
pub open spec fn args_view(s: Seq<(String, Argument)>) -> Seq<(Seq<char>, ArgView)> {
    Seq::new(s.len(), |i: int| (s[i].0@, arg_view(s[i].1)))
}

/// The content of an action.
pub open spec fn action_view(a: Action) -> ActionView {
    match a {
        Action::Message(m) => ActionView::Message(m@),
        Action::Execute(e, args) => ActionView::Execute(e, args_view(args@)),
    }
}

/// The contents of actions.
pub open spec fn actions_view(s: Seq<Action>) -> Seq<ActionView> {
    Seq::new(s.len(), |i: int| action_view(s[i]))
}

/// Whether two byte strings are equal when ASCII letters are compared without case.
fn bytes_eq_ignore_case(a: &[u8], b: &[u8]) -> (r: bool)
    ensures
        r == eq_ignore_ascii_case(a@, b@),
{
    if a.len() != b.len() {
        return false;
    }
    let mut i: usize = 0;
    while i < a.len()
        invariant
            a@.len() == b@.len(),
            0 <= i <= a@.len(),
            forall|k: int| 0 <= k < i ==> ascii_lower(a@[k]) == ascii_lower(b@[k]),
        decreases a@.len() - i,
    {
        let x = a[i];
        let y = b[i];
        let lx: u8 = if 65 <= x && x <= 90 { x + 32 } else { x };
        let ly: u8 = if 65 <= y && y <= 90 { y + 32 } else { y };
        if lx != ly {
            return false;
        }
        i += 1;
    }
    true
}

impl Argument {
    /// Whether the argument accepts `argument`: any text for `Any`, its own text without regard
    /// to ASCII case for a literal, nothing otherwise.
    pub fn matches(&self, argument: &str) -> (b: bool)
        ensures
            b == arg_matches(arg_view(*self), argument.spec_bytes()),
    {
        match self {
            Argument::Any => true,
            Argument::Literal(literal) => bytes_eq_ignore_case(literal.as_str().as_bytes(), argument.as_bytes()),
            _ => false,
        }
    }

    /// A copy of the argument.
    pub fn clone(&self) -> (r: Argument)
        ensures
            arg_view(r) == arg_view(*self),
    {
        match self {
            Argument::Any => Argument::Any,
            Argument::Literal(l) => Argument::Literal(l.clone()),
            Argument::Integer(v) => Argument::Integer(*v),
            Argument::FloatingPoint(v) => Argument::FloatingPoint(*v),
            Argument::String(s) => Argument::String(s.clone()),
        }
    }

    /// Applies the argument's text to the command's context; no argument records anything yet,
    /// so this always succeeds and changes nothing.
    pub fn apply(&self, context: &mut CommandContext, name: &str, argument: &str) -> (r: Result<(), String>)
        ensures
            r is Ok,
            args_view(final(context).arguments@) == args_view(old(context).arguments@),
    {
        Ok(())
    }
}

/// The arguments a command has collected, by name.
pub struct CommandContext {
    pub arguments: Vec<(String, Argument)>,
}

/// The value of the first entry named `key`, if any.
pub open spec fn argument_named(args: Seq<(Seq<char>, ArgView)>, key: Seq<char>) -> Option<ArgView> {
    match first_named(args, key) {
        Some(i) => Some(args[i].1),
        None => None,
    }
}

impl CommandContext {
    /// A context with no arguments.
    pub fn new() -> (c: Self)
        ensures
            c.arguments@.len() == 0,
    {
        CommandContext { arguments: Vec::new() }
    }

    /// Where the first entry named `key` is.
    fn position(&self, key: &str) -> (r: Option<usize>)
        ensures
            match first_named(args_view(self.arguments@), key@) {
                Some(i) => r matches Some(k) && k as int == i,
                None => r is None,
            },
            r matches Some(i) ==> i < self.arguments@.len() && argument_named(
                args_view(self.arguments@),
                key@,
            ) == Some(arg_view(self.arguments@[i as int].1)),
            r is None ==> argument_named(args_view(self.arguments@), key@) is None,
    {
        let ghost v = args_view(self.arguments@);
        let k = String::from_str(key);
        let mut i: usize = 0;
        while i < self.arguments.len()
            invariant
                v == args_view(self.arguments@),
                k@ == key@,
                0 <= i <= self.arguments@.len(),
                forall|j: int| 0 <= j < i ==> v[j].0 != key@,
            decreases self.arguments@.len() - i,
        {
            if self.arguments[i].0 == k {
                assert(v[i as int].0 == key@);
                return Some(i);
            }
            i += 1;
        }
        None
    }

    /// The integer argument named `key`, or `0`.
    pub fn get_integer(&self, key: &str) -> (r: i64)
        ensures
            r == match argument_named(args_view(self.arguments@), key@) {
                Some(ArgView::Integer(v)) => v,
                _ => 0,
            },
    {
        match self.position(key) {
            Some(i) => match &self.arguments[i].1 {
                Argument::Integer(v) => *v,
                _ => 0,
            },
            None => 0,
        }
    }

    /// The bits of the floating-point argument named `key`, or the bits of `0.0`.
    pub fn get_float(&self, key: &str) -> (r: u64)
        ensures
            r == match argument_named(args_view(self.arguments@), key@) {
                Some(ArgView::FloatingPoint(v)) => v,
                _ => 0,
            },
    {
        match self.position(key) {
            Some(i) => match &self.arguments[i].1 {
                Argument::FloatingPoint(v) => *v,
                _ => 0,
            },
            None => 0,
        }
    }

    /// The text argument named `key`, or the empty string.
    pub fn get_string(&self, key: &str) -> (r: String)
        ensures
            r@ == match argument_named(args_view(self.arguments@), key@) {
                Some(ArgView::Str(v)) => v,
                _ => Seq::empty(),
            },
    {
        match self.position(key) {
            Some(i) => match &self.arguments[i].1 {
                Argument::String(v) => v.clone(),
                _ => String::new(),
            },
            None => String::new(),
        }
    }

    /// The literal argument named `key`, or the empty string.
    pub fn get_literal(&self, key: &str) -> (r: String)
        ensures
            r@ == match argument_named(args_view(self.arguments@), key@) {
                Some(ArgView::Literal(v)) => v,
                _ => Seq::empty(),
            },
    {
        match self.position(key) {
            Some(i) => match &self.arguments[i].1 {
                Argument::Literal(v) => v.clone(),
                _ => String::new(),
            },
            None => String::new(),
        }
    }

    /// Sets the argument named `name`, replacing an earlier value of that name.
    pub fn set(&mut self, name: String, argument: Argument)
        ensures
            args_view(final(self).arguments@) == set_argument(
                args_view(old(self).arguments@),
                name@,
                arg_view(argument),
            ),
    {
        let ghost v = args_view(self.arguments@);
        match self.position(name.as_str()) {
            Some(i) => {
                self.arguments.set(i, (name, argument));
                assert(args_view(self.arguments@) =~= v.update(i as int, (name@, arg_view(argument))));
            },
            None => {
                self.arguments.push((name, argument));
                assert(args_view(self.arguments@) =~= v.push((name@, arg_view(argument))));
            },
        }
    }
}

impl CommandNode {
    /// A node with the given name and argument, no executor and no children.
    pub fn new(name: &str, arg: Argument) -> (n: Self)
        ensures
            node_view(n) == (NodeView {
                name: name@,
                argument: arg_view(arg),
                executor: None,
                children: Seq::empty(),
                default: false,
            }),
    {
        let n = CommandNode { name: String::from_str(name), argument: arg, executor: None, children: Vec::new(), default: false };
        assert(nodes_view(n.children@) =~= Seq::<NodeView>::empty());
        n
    }

    /// The node with `child` added after its children.
    pub fn then(self, child: CommandNode) -> (n: Self)
        ensures
            node_view(n) == (NodeView {
                children: node_view(self).children.push(node_view(child)),
                ..node_view(self)
            }),
    {
        let mut n = self;
        let ghost before = n.children@;
        n.children.push(child);
        assert(nodes_view(n.children@) =~= nodes_view(before).push(node_view(child)));
        n
    }

    /// The node with an executor.
    pub fn executes(self, executor: usize) -> (n: Self)
        ensures
            node_view(n) == (NodeView { executor: Some(executor), ..node_view(self) }),
    {
        let mut n = self;
        n.executor = Some(executor);
        n
    }

    /// The executor to run when a command ends at this node, if it has one.
    pub fn execute(&self) -> (r: Option<usize>)
        ensures
            r == self.executor,
    {
        self.executor
    }
}

/// A node with no name that matches any argument and runs `executor`.
pub fn executor(id: usize) -> (n: CommandNode)
    ensures
        node_view(n) == (NodeView {
            name: Seq::empty(),
            argument: ArgView::Any,
            executor: Some(id),
            children: Seq::empty(),
            default: false,
        }),
{
    let empty = "";
    proof {
        reveal_strlit("");
        assert(empty@ =~= Seq::<char>::empty());
    }
    CommandNode::new(empty, Argument::Any).executes(id)
}

/// `args` made into a chain, each node taking the next as its last child, and `last` at the
/// end.
pub open spec fn chain(args: Seq<NodeView>, last: NodeView) -> NodeView
    decreases args.len(),
{
    if args.len() == 0 {
        last
    } else {
        NodeView { children: args[0].children.push(chain(args.drop_first(), last)), ..args[0] }
    }
}

/// Chains nodes: each node of `args` takes the next as its last child, and the last takes
/// `last`; the first node, heading the chain, is returned.
pub fn after(args: Vec<CommandNode>, last: CommandNode) -> (n: CommandNode)
    requires
        args@.len() > 0,
    ensures
        node_view(n) == chain(nodes_view(args@), node_view(last)),
{
    let ghost all = nodes_view(args@);
    let ghost orig = args@;
    let mut args = args;
    let mut tail = last;
    proof {
        assert(all.subrange(all.len() as int, all.len() as int) =~= Seq::<NodeView>::empty());
    }
    while args.len() > 0
        invariant
            args@.len() <= orig.len(),
            args@ == orig.take(args@.len() as int),
            all == nodes_view(orig),
            all.len() == orig.len(),
            node_view(tail) == chain(all.subrange(args@.len() as int, all.len() as int), node_view(last)),
        decreases args@.len(),
    {
        let k = args.len() - 1;
        let mut node = args.pop().unwrap();
        assert(node == orig[k as int]);
        let ghost before = node.children@;
        node.children.push(tail);
        proof {
            assert(nodes_view(node.children@) =~= nodes_view(before).push(node_view(tail)));
            let rest = all.subrange(k + 1, all.len() as int);
            let here = all.subrange(k as int, all.len() as int);
            assert(here.drop_first() =~= rest);
            assert(here[0] == node_view(orig[k as int]));
            assert(args@ =~= orig.take(k as int));
        }
        tail = node;
    }
    proof {
        assert(all.subrange(0, all.len() as int) =~= all);
    }
    tail
}

/// A node matching `literal`, named after it.
pub fn literal(text: &str) -> (n: CommandNode)
    ensures
        node_view(n) == (NodeView {
            name: text@,
            argument: ArgView::Literal(text@),
            executor: None,
            children: Seq::empty(),
            default: false,
        }),
{
    CommandNode::new(text, Argument::Literal(String::from_str(text)))
}

/// A node reading an integer.
pub fn integer(name: &str) -> (n: CommandNode)
    ensures
        node_view(n) == (NodeView {
            name: name@,
            argument: ArgView::Integer(0),
            executor: None,
            children: Seq::empty(),
            default: false,
        }),
{
    CommandNode::new(name, Argument::Integer(0))
}

/// A node reading an integer, taken by default with the value `default`.
pub fn integer_default(name: &str, default: i64) -> (n: CommandNode)
    ensures
        node_view(n) == (NodeView {
            name: name@,
            argument: ArgView::Integer(default),
            executor: None,
            children: Seq::empty(),
            default: true,
        }),
{
    let mut node = CommandNode::new(name, Argument::Integer(default));
    node.default = true;
    node
}

/// A node for a floating-point value; it reads an integer, as the game's own command does.
pub fn float(name: &str) -> (n: CommandNode)
    ensures
        node_view(n) == (NodeView {
            name: name@,
            argument: ArgView::Integer(0),
            executor: None,
            children: Seq::empty(),
            default: false,
        }),
{
    CommandNode::new(name, Argument::Integer(0))
}

/// A node reading a floating-point value, taken by default with the value whose bits are
/// `default`.
pub fn float_default(name: &str, default: u64) -> (n: CommandNode)
    ensures
        node_view(n) == (NodeView {
            name: name@,
            argument: ArgView::FloatingPoint(default),
            executor: None,
            children: Seq::empty(),
            default: true,
        }),
{
    let mut node = CommandNode::new(name, Argument::FloatingPoint(default));
    node.default = true;
    node
}

/// A node reading text.
pub fn string(name: &str) -> (n: CommandNode)
    ensures
        node_view(n) == (NodeView {
            name: name@,
            argument: ArgView::Str(Seq::empty()),
            executor: None,
            children: Seq::empty(),
            default: false,
        }),
{
    CommandNode::new(name, Argument::String(String::new()))
}

/// A node reading text, taken by default with the value `default`.
pub fn string_default(name: &str, default: String) -> (n: CommandNode)
    ensures
        node_view(n) == (NodeView {
            name: name@,
            argument: ArgView::Str(default@),
            executor: None,
            children: Seq::empty(),
            default: true,
        }),
{
    let mut node = CommandNode::new(name, Argument::String(default));
    node.default = true;
    node
}

/// The first child accepting `arg`, found by looking through the children in order.
fn first_match_exec(node: &CommandNode, arg: &str) -> (r: Option<usize>)
    ensures
        match first_match(node_view(*node).children, arg.spec_bytes()) {
            Some(k) => r matches Some(j) && j as int == k,
            None => r is None,
        },
        r matches Some(j) ==> j < node.children@.len(),
{
    let ghost kids = node_view(*node).children;
    let mut i: usize = 0;
    while i < node.children.len()
        invariant
            kids == node_view(*node).children,
            kids == nodes_view(node.children@),
            0 <= i <= node.children@.len(),
            forall|j: int| 0 <= j < i ==> !arg_matches(kids[j].argument, arg.spec_bytes()),
        decreases node.children@.len() - i,
    {
        if node.children[i].argument.matches(arg) {
            assert(kids[i as int] == node_view(node.children@[i as int]));
            assert(arg_matches(kids[i as int].argument, arg.spec_bytes()));
            return Some(i);
        }
        assert(kids[i as int] == node_view(node.children@[i as int]));
        i += 1;
    }
    None
}

/// The first child taken by default.
fn first_default_exec(node: &CommandNode) -> (r: Option<usize>)
    ensures
        match first_default(node_view(*node).children) {
            Some(k) => r matches Some(j) && j as int == k,
            None => r is None,
        },
        r matches Some(j) ==> j < node.children@.len(),
{
    let ghost kids = node_view(*node).children;
    let mut i: usize = 0;
    while i < node.children.len()
        invariant
            kids == node_view(*node).children,
            kids == nodes_view(node.children@),
            0 <= i <= node.children@.len(),
            forall|j: int| 0 <= j < i ==> !kids[j].default,
        decreases node.children@.len() - i,
    {
        assert(kids[i as int] == node_view(node.children@[i as int]));
        if node.children[i].default {
            return Some(i);
        }
        i += 1;
    }
    None
}

/// The message listing the arguments `node` expects.
fn expected_message_exec(node: &CommandNode) -> (r: String)
    requires
        node.children@.len() > 0,
    ensures
        r@ == expected_message(node_view(*node).children),
{
    let ghost kids = node_view(*node).children;
    let head = "Expected one of the following arguments: ";
    let sep = ", ";
    proof {
        reveal_strlit("Expected one of the following arguments: ");
        reveal_strlit(", ");
    }
    let mut r = String::from_str(head);
    r.append(node.children[0].name.as_str());
    assert(kids[0] == node_view(node.children@[0]));
    let mut i: usize = 1;
    while i < node.children.len()
        invariant
            kids == node_view(*node).children,
            kids == nodes_view(node.children@),
            1 <= i <= node.children@.len(),
            sep@ == ", "@,
            r@ == head@ + kids[0].name + names_tail(kids.take(i as int)),
        decreases node.children@.len() - i,
    {
        r.append(sep);
        r.append(node.children[i].name.as_str());
        proof {
            assert(kids[i as int] == node_view(node.children@[i as int]));
            assert(kids.take(i + 1).drop_last() =~= kids.take(i as int));
        }
        i += 1;
    }
    proof {
        assert(kids.take(node.children@.len() as int) =~= kids);
    }
    r
}

/// A string of `a`, `b` and `c` one after the other.
fn joined(a: &str, b: &str, c: &str) -> (r: String)
    ensures
        r@ == a@ + b@ + c@,
{
    let mut r = String::from_str(a);
    r.append(b);
    r.append(c);
    r
}

/// Walks the arguments from the traverser's position on, from `node`, adding to `acts` what
/// the walk does; `None` where the walk would panic.
fn walk_exec<'a>(node: &'a CommandNode, args: &mut ArgumentTraverser, command: &str, acts: &mut Vec<Action>) -> (r: Option<(&'a CommandNode, bool)>)
    requires
        old(args).wf(),
        old(args).bytes() == command.spec_bytes(),
        command.spec_bytes().len() < usize::MAX,
        0 <= old(args).spec_index(),
    ensures
        match walk(node_view(*node), command.spec_bytes(), old(args).spec_index(), actions_view(old(acts)@)) {
            None => r is None,
            Some((n, a, early)) => r matches Some((m, e)) && node_view(*m) == n && actions_view(final(acts)@) == a && e == early,
        },
    decreases command.spec_bytes().len() + 1 - old(args).spec_index(),
{
    let ghost bytes = command.spec_bytes();
    let ghost i = args.spec_index();
    let ghost acts0 = actions_view(acts@);
    if !args.has_next() {
        return Some((node, false));
    }
    let arg = args.next().unwrap();
    proof {
        lemma_arg_end_after(bytes, i, false, 0, false);
        vstd::utf8::encode_utf8_decode_utf8(arg@);
    }
    let ghost end = arg_end(bytes, i);
    proof {
        reveal_strlit("\"");
        reveal_strlit("Ignoring the following arguments: \"");
        reveal_strlit("Invalid value for argument \"");
        reveal_strlit("\": \"");
    }
    if node.children.len() == 0 {
        let a = args.anchor();
        let len = command.len();
        if len - a > 35 && !command.is_char_boundary(a + 35) {
            return None;
        }
        let rest = args.remaining_string(35);
        proof {
            vstd::utf8::encode_utf8_decode_utf8(rest@);
        }
        let msg = joined("Ignoring the following arguments: \"", rest, "\"");
        let ghost mid = acts@;
        acts.push(Action::Message(msg));
        match node.executor {
            Some(e) => {
                let ghost before = acts@;
                let none: Vec<(String, Argument)> = Vec::new();
                proof {
                    assert(args_view(none@) =~= Seq::<(Seq<char>, ArgView)>::empty());
                }
                acts.push(Action::Execute(e, none));
                proof {
                    assert(actions_view(acts@) =~= actions_view(before).push(ActionView::Execute(e, Seq::empty())));
                }
            },
            None => {},
        }
        proof {
            assert(actions_view(mid.push(Action::Message(msg))) =~= acts0.push(ActionView::Message(msg@)));
            assert(actions_view(acts@) =~= acts0.push(ActionView::Message(msg@)) + run_plain(node_view(*node)));
        }
        return Some((node, true));
    }
    match first_match_exec(node, arg) {
        Some(k) => {
            assert(node_view(*node).children[k as int] == node_view(node.children@[k as int]));
            walk_exec(&node.children[k], args, command, acts)
        },
        None => {
            let msg = if node.children.len() == 1 {
                assert(node_view(*node).children[0] == node_view(node.children@[0]));
                let mut m = joined("Invalid value for argument \"", node.children[0].name.as_str(), "\": \"");
                m.append(arg);
                m.append("\"");
                m
            } else {
                expected_message_exec(node)
            };
            let ghost before = acts@;
            acts.push(Action::Message(msg));
            proof {
                assert(actions_view(acts@) =~= actions_view(before).push(ActionView::Message(msg@)));
            }
            walk_exec(node, args, command, acts)
        },
    }
}

/// Follows default children from `node`, collecting their arguments into `ctx`.
fn follow_defaults_exec<'a>(node: &'a CommandNode, ctx: CommandContext) -> (r: (&'a CommandNode, CommandContext))
    ensures
        (node_view(*r.0), args_view(r.1.arguments@)) == follow_defaults(node_view(*node), args_view(ctx.arguments@)),
    decreases node,
{
    if node.children.len() == 0 {
        return (node, ctx);
    }
    match first_default_exec(node) {
        Some(k) => {
            let child = &node.children[k];
            assert(node_view(*node).children[k as int] == node_view(*child));
            let mut ctx = ctx;
            ctx.set(child.name.clone(), child.argument.clone());
            follow_defaults_exec(child, ctx)
        },
        None => (node, ctx),
    }
}

/// The registered roots after registering `n`: a node reading a literal takes the place of the
/// root with the same literal, or is added; any other node is not registered.
pub open spec fn registered(roots: Seq<NodeView>, n: NodeView) -> Seq<NodeView> {
    match n.argument {
        ArgView::Literal(l) => if exists|i: int| 0 <= i < roots.len() && root_key(roots[i]) == l {
            roots.update(choose|i: int| 0 <= i < roots.len() && root_key(roots[i]) == l, n)
        } else {
            roots.push(n)
        },
        _ => roots,
    }
}

/// Whether every root reads a literal and no two read the same one.
pub open spec fn roots_wf(roots: Seq<NodeView>) -> bool {
    &&& forall|i: int| 0 <= i < roots.len() ==> roots[i].argument is Literal
    &&& forall|i: int, j: int| 0 <= i < j < roots.len() ==> root_key(roots[i]) != root_key(roots[j])
}

/// The commands a server knows, by the literal their root reads.
pub struct CommandExecutor {
    commands: Vec<CommandNode>,
}

impl CommandExecutor {
    /// The registered roots.
    pub closed spec fn roots(&self) -> Seq<NodeView> {
        nodes_view(self.commands@)
    }

    /// Every root reads a literal and no two read the same one.
    pub open spec fn wf(&self) -> bool {
        roots_wf(self.roots())
    }

    /// An executor with no commands.
    pub fn new() -> (r: Self)
        ensures
            r.wf(),
            r.roots() == Seq::<NodeView>::empty(),
    {
        let r = CommandExecutor { commands: Vec::new() };
        assert(r.roots() =~= Seq::<NodeView>::empty());
        r
    }

    /// Where the root reading the literal `key` is.
    fn position_of(&self, key: &String) -> (r: Option<usize>)
        requires
            self.wf(),
        ensures
            r matches Some(i) ==> i < self.roots().len() && root_key(self.roots()[i as int]) == key@,
            r is None ==> forall|i: int| 0 <= i < self.roots().len() ==> root_key(self.roots()[i]) != key@,
    {
        let ghost roots = self.roots();
        let mut i: usize = 0;
        while i < self.commands.len()
            invariant
                roots == self.roots(),
                roots == nodes_view(self.commands@),
                roots_wf(roots),
                0 <= i <= self.commands@.len(),
                forall|j: int| 0 <= j < i ==> root_key(roots[j]) != key@,
            decreases self.commands@.len() - i,
        {
            assert(roots[i as int] == node_view(self.commands@[i as int]));
            let same = match &self.commands[i].argument {
                Argument::Literal(l) => *l == *key,
                _ => false,
            };
            if same {
                return Some(i);
            }
            i += 1;
        }
        None
    }

    /// Registers a command under the literal its root reads, replacing a command registered
    /// under the same literal. A root that reads no literal is not registered.
    pub fn register(&mut self, node: CommandNode)
        requires
            old(self).wf(),
        ensures
            final(self).wf(),
            final(self).roots() == registered(old(self).roots(), node_view(node)),
    {
        let ghost roots = self.roots();
        let key = match &node.argument {
            Argument::Literal(l) => l.clone(),
            _ => {
                return;
            },
        };
        let ghost n = node_view(node);
        match self.position_of(&key) {
            Some(i) => {
                proof {
                    assert(root_key(roots[i as int]) == key@);
                    let c = choose|j: int| 0 <= j < roots.len() && root_key(roots[j]) == key@;
                    if c != i as int {
                        if c < i {
                            assert(root_key(roots[c]) != root_key(roots[i as int]));
                        } else {
                            assert(root_key(roots[i as int]) != root_key(roots[c]));
                        }
                    }
                }
                self.commands.set(i, node);
                assert(self.roots() =~= roots.update(i as int, n));
            },
            None => {
                self.commands.push(node);
                assert(self.roots() =~= roots.push(n));
            },
        }
    }

    /// Where the root named by the text `name` is.
    fn find_root_exec(&self, name: &str) -> (r: Option<usize>)
        requires
            self.wf(),
        ensures
            match find_root(self.roots(), name.spec_bytes()) {
                Some(k) => r matches Some(j) && j as int == k,
                None => r is None,
            },
            r matches Some(j) ==> j < self.commands@.len(),
    {
        let key = String::from_str(name);
        let ghost roots = self.roots();
        proof {
            vstd::utf8::encode_utf8_decode_utf8(name@);
            assert forall|i: int| 0 <= i < roots.len() implies (encode_utf8(root_key(roots[i])) == name.spec_bytes()) == (root_key(roots[i]) == name@) by {
                vstd::utf8::encode_utf8_decode_utf8(root_key(roots[i]));
            }
        }
        match self.position_of(&key) {
            Some(i) => {
                proof {
                    let c = choose|j: int| 0 <= j < roots.len() && encode_utf8(root_key(roots[j])) == name.spec_bytes();
                    if c != i as int {
                        if c < i {
                            assert(root_key(roots[c]) != root_key(roots[i as int]));
                        } else {
                            assert(root_key(roots[i as int]) != root_key(roots[c]));
                        }
                    }
                }
                Some(i)
            },
            None => None,
        }
    }

    /// Dispatches a command: finds its root by the first argument, walks the tree with the
    /// arguments that follow, takes default children, and says what to do: messages to send
    /// and the executor to run. `None` where an extra argument would be cut inside a character.
    pub fn dispatch(&self, command: &str) -> (r: Option<Vec<Action>>)
        requires
            self.wf(),
            command.spec_bytes().len() < usize::MAX,
        ensures
            match dispatch_spec(self.roots(), command.spec_bytes()) {
                None => r is None,
                Some(a) => r matches Some(v) && actions_view(v@) == a,
            },
    {
        let ghost bytes = command.spec_bytes();
        let mut args = ArgumentTraverser::new(command);
        let mut acts: Vec<Action> = Vec::new();
        assert(actions_view(acts@) =~= Seq::<ActionView>::empty());
        if !args.has_next() {
            return Some(acts);
        }
        let root_name = args.next().unwrap();
        proof {
            lemma_arg_end_after(bytes, 0, false, 0, false);
            vstd::utf8::encode_utf8_decode_utf8(root_name@);
            reveal_strlit("No command found named \"");
            reveal_strlit("\"");
            reveal_strlit("Expected value for argument \"");
        }
        match self.find_root_exec(root_name) {
            None => {
                let msg = joined("No command found named \"", root_name, "\"");
                acts.push(Action::Message(msg));
                assert(actions_view(acts@) =~= seq![ActionView::Message(msg@)]);
                Some(acts)
            },
            Some(r) => {
                assert(self.roots()[r as int] == node_view(self.commands@[r as int]));
                match walk_exec(&self.commands[r], &mut args, command, &mut acts) {
                    None => None,
                    Some((node, early)) => {
                        if early {
                            return Some(acts);
                        }
                        let fresh = CommandContext::new();
                        proof {
                            assert(args_view(fresh.arguments@) =~= Seq::<(Seq<char>, ArgView)>::empty());
                        }
                        let (last, ctx) = follow_defaults_exec(node, fresh);
                        let ghost before = acts@;
                        match last.executor {
                            Some(e) => {
                                acts.push(Action::Execute(e, ctx.arguments));
                            },
                            None => {
                                if last.children.len() == 1 {
                                    assert(node_view(*last).children[0] == node_view(last.children@[0]));
                                    let msg = joined("Expected value for argument \"", last.children[0].name.as_str(), "\"");
                                    acts.push(Action::Message(msg));
                                } else if last.children.len() > 1 {
                                    let msg = expected_message_exec(last);
                                    acts.push(Action::Message(msg));
                                }
                            },
                        }
                        proof {
                            assert(actions_view(acts@) =~= actions_view(before) + finish_actions(node_view(*last), args_view(ctx.arguments@)));
                        }
                        Some(acts)
                    },
                }
            },
        }
    }
}

/// A command registered under a literal is what that literal then finds, and every other
/// literal finds what it found before.
pub proof fn law_find_after_register(roots: Seq<NodeView>, n: NodeView, name: Seq<u8>)
    requires
        roots_wf(roots),
        n.argument is Literal,
    ensures
        roots_wf(registered(roots, n)),
        name == encode_utf8(root_key(n)) ==> (find_root(registered(roots, n), name) matches Some(i)
            && registered(roots, n)[i] == n),
        name != encode_utf8(root_key(n)) ==> (match find_root(roots, name) {
            Some(i) => find_root(registered(roots, n), name) matches Some(j) && registered(
                roots,
                n,
            )[j] == roots[i],
            None => find_root(registered(roots, n), name) is None,
        }),
{
    let l = root_key(n);
    let after = registered(roots, n);
    if exists|i: int| 0 <= i < roots.len() && root_key(roots[i]) == l {
        let c = choose|i: int| 0 <= i < roots.len() && root_key(roots[i]) == l;
        assert(after == roots.update(c, n));
        assert forall|i: int, j: int| 0 <= i < j < after.len() implies root_key(after[i]) != root_key(after[j]) by {
            if i == c {
                assert(root_key(roots[j]) != root_key(roots[c]));
            } else if j == c {
                assert(root_key(roots[i]) != root_key(roots[c]));
            }
        }
    } else {
        assert(after == roots.push(n));
    }
    if name == encode_utf8(l) {
        let k = if exists|i: int| 0 <= i < roots.len() && root_key(roots[i]) == l {
            choose|i: int| 0 <= i < roots.len() && root_key(roots[i]) == l
        } else {
            roots.len() as int
        };
        assert(after[k] == n);
        assert(encode_utf8(root_key(after[k])) == name);
        let f = choose|i: int| 0 <= i < after.len() && encode_utf8(root_key(after[i])) == name;
        vstd::utf8::encode_utf8_decode_utf8(root_key(after[f]));
        vstd::utf8::encode_utf8_decode_utf8(l);
        if f != k {
            if f < k {
                assert(root_key(after[f]) != root_key(after[k]));
            } else {
                assert(root_key(after[k]) != root_key(after[f]));
            }
        }
    } else {
        assert forall|i: int| 0 <= i < after.len() && encode_utf8(root_key(after[i])) == name implies i < roots.len() && after[i] == roots[i] by {
            if i < roots.len() && after[i] != roots[i] {
                assert(after[i] == n);
            }
            if i == roots.len() {
                assert(after[i] == n);
            }
        }
        assert forall|i: int| 0 <= i < roots.len() && encode_utf8(root_key(roots[i])) == name implies after[i] == roots[i] by {
            if after[i] != roots[i] {
                assert(after[i] == n);
                assert(root_key(roots[i]) == l);
            }
        }
        if exists|i: int| 0 <= i < roots.len() && encode_utf8(root_key(roots[i])) == name {
            let a = choose|i: int| 0 <= i < roots.len() && encode_utf8(root_key(roots[i])) == name;
            assert(after[a] == roots[a]);
            assert(encode_utf8(root_key(after[a])) == name);
            let b = choose|i: int| 0 <= i < after.len() && encode_utf8(root_key(after[i])) == name;
            assert(b < roots.len() && after[b] == roots[b]);
            vstd::utf8::encode_utf8_decode_utf8(root_key(roots[a]));
            vstd::utf8::encode_utf8_decode_utf8(root_key(roots[b]));
            if a != b {
                if a < b {
                    assert(root_key(roots[a]) != root_key(roots[b]));
                } else {
                    assert(root_key(roots[b]) != root_key(roots[a]));
                }
            }
        }
    }
}

} // verus!
