//! Walking, rendering and detaching parsed trees.
//!
//! How a template renders is not decided here: rendering hands each
//! template, with the output so far, to an expansion that the caller gives.

use vstd::prelude::*;
use vstd::string::StringExecFns;
use std::borrow::Cow;
use crate::mediawiki::{
    document, is_markup, lemma_argument_view, lemma_plain_text_document, lemma_template_view, views,
    Node, TemplateArgument,
};

verus! {

broadcast use vstd::std_specs::vec::group_vec_axioms;

/// The nodes of the trees `nodes` in pre-order: each node in front of the
/// nodes of its arguments' values, arguments in source order.
pub open spec fn preorder<'a>(nodes: Seq<Node<'a>>) -> Seq<Node<'a>>
    decreases nodes,
{
    if nodes.len() == 0 {
        seq![]
    } else {
        preorder(nodes.drop_last()) + subtree(nodes.last())
    }
}

/// The node `node` followed by the nodes below it, in pre-order.
pub open spec fn subtree<'a>(node: Node<'a>) -> Seq<Node<'a>>
    decreases node,
{
    seq![node] + (match node {
        Node::Template { name, arguments } => preorder_arguments(arguments@),
        _ => seq![],
    })
}

/// The nodes of the values of `arguments` in pre-order.
pub open spec fn preorder_arguments<'a>(arguments: Seq<TemplateArgument<'a>>) -> Seq<Node<'a>>
    decreases arguments,
{
    if arguments.len() == 0 {
        seq![]
    } else {
        preorder_arguments(arguments.drop_last()) + preorder(arguments.last().value@)
    }
}

/// The number of nodes in the trees `nodes`, nested ones included.
pub open spec fn node_count(nodes: Seq<Node>) -> nat
    decreases nodes,
{
    if nodes.len() == 0 {
        0
    } else {
        node_count(nodes.drop_last()) + 1 + (match nodes.last() {
            Node::Template { name, arguments } => argument_node_count(arguments@),
            _ => 0nat,
        })
    }
}

/// The number of nodes in the values of `arguments`, nested ones included.
pub open spec fn argument_node_count(arguments: Seq<TemplateArgument>) -> nat
    decreases arguments,
{
    if arguments.len() == 0 {
        0
    } else {
        argument_node_count(arguments.drop_last()) + node_count(arguments.last().value@)
    }
}

/// A walk in pre-order meets every node of the trees once: the walk is as
/// long as the trees have nodes, nested ones included.
pub proof fn lemma_preorder_len(nodes: Seq<Node>)
    ensures
        preorder(nodes).len() == node_count(nodes),
    decreases nodes,
{
    if nodes.len() > 0 {
        lemma_preorder_len(nodes.drop_last());
        match nodes.last() {
            Node::Template { name, arguments } => {
                lemma_preorder_arguments_len(arguments@);
                assert(subtree(nodes.last()).len() == 1 + preorder_arguments(arguments@).len());
            },
            _ => {
                assert(subtree(nodes.last()).len() == 1);
            },
        }
    }
}

/// The walk through the values of `arguments` is as long as they have
/// nodes.
pub proof fn lemma_preorder_arguments_len(arguments: Seq<TemplateArgument>)
    ensures
        preorder_arguments(arguments).len() == argument_node_count(arguments),
    decreases arguments,
{
    if arguments.len() > 0 {
        lemma_preorder_arguments_len(arguments.drop_last());
        lemma_preorder_len(arguments.last().value@);
    }
}

/// The expansion `f` may be called for the template `node`, whatever the
/// output so far.
pub open spec fn expandable<F: FnMut(&str, &[TemplateArgument], &mut String)>(
    f: F,
    node: Node,
) -> bool {
    node matches Node::Template { name, arguments } ==> forall|
        n: &str,
        a: &[TemplateArgument],
        b: &mut String,
    |
        n@ == name@ && a@ == arguments@ ==> #[trigger] call_requires(f, (n, a, b))
}

/// Whether the texts `states` follow one another as those of `nodes` that
/// are no templates ask: `states[i + 1]` is `states[i]` with the text of a
/// text node appended, and `states[i]` itself for an error node.
pub open spec fn plain_steps(nodes: Seq<Node>, states: Seq<Seq<char>>) -> bool {
    forall|i: int|
        0 <= i < nodes.len() ==> match #[trigger] nodes[i] {
            Node::Text(text) => states[i + 1] == states[i] + text@,
            Node::Template { .. } => true,
            Node::Error => states[i + 1] == states[i],
        }
}

/// Whether `states` traces the rendering of `nodes` to `out`: the output
/// is empty at first, `states[i + 1]` is the output behind node `i`, and
/// `out` is the output behind the last node. What a template does to the
/// output is up to the expansion.
pub open spec fn traces(nodes: Seq<Node>, states: Seq<Seq<char>>, out: Seq<char>) -> bool {
    &&& states.len() == nodes.len() + 1
    &&& states[0] == Seq::<char>::empty()
    &&& states[nodes.len() as int] == out
    &&& plain_steps(nodes, states)
}

/// The text of a string field.
pub fn text_of<'b>(text: &'b Cow<'_, str>) -> (r: &'b str)
    ensures
        r@ == text@,
{
    match text {
        Cow::Borrowed(borrowed) => borrowed,
        Cow::Owned(owned) => owned.as_str(),
    }
}

/// Calls `f` on every node of `nodes` in pre-order.
pub fn visit_nodes<F: FnMut(&Node)>(nodes: &[Node], f: &mut F)
    requires
        forall|i: int|
            0 <= i < preorder(nodes@).len() ==> call_requires(
                *old(f),
                (&#[trigger] preorder(nodes@)[i],),
            ),
    ensures
        forall|i: int|
            0 <= i < preorder(nodes@).len() ==> call_ensures(
                *old(f),
                (&#[trigger] preorder(nodes@)[i],),
                (),
            ),
        *final(f) == *old(f),
    decreases nodes@,
{
    let mut k: usize = 0;
    while k < nodes.len()
        invariant
            k <= nodes@.len(),
            *f == *old(f),
            forall|i: int|
                0 <= i < preorder(nodes@).len() ==> call_requires(
                    *old(f),
                    (&#[trigger] preorder(nodes@)[i],),
                ),
            forall|i: int|
                0 <= i < preorder(nodes@.take(k as int)).len() ==> call_ensures(
                    *old(f),
                    (&#[trigger] preorder(nodes@.take(k as int))[i],),
                    (),
                ),
        decreases nodes@.len() - k,
    {
        proof {
            lemma_preorder_take(nodes@, k as int);
            lemma_preorder_prefix(nodes@, k + 1);
            let base = preorder(nodes@.take(k as int)).len();
            assert forall|i: int| 0 <= i < subtree(nodes@[k as int]).len() implies #[trigger] subtree(
                nodes@[k as int],
            )[i] == preorder(nodes@)[base + i] by {
                assert(preorder(nodes@.take(k + 1))[base + i] == subtree(nodes@[k as int])[i]);
            }
        }
        visit_node(&nodes[k], f);
        k += 1;
    }
    assert(nodes@.take(k as int) == nodes@);
}

/// Calls `f` on `node` and then on every node below it, in pre-order.
pub fn visit_node<F: FnMut(&Node)>(node: &Node, f: &mut F)
    requires
        forall|i: int|
            0 <= i < subtree(*node).len() ==> call_requires(
                *old(f),
                (&#[trigger] subtree(*node)[i],),
            ),
    ensures
        forall|i: int|
            0 <= i < subtree(*node).len() ==> call_ensures(
                *old(f),
                (&#[trigger] subtree(*node)[i],),
                (),
            ),
        *final(f) == *old(f),
    decreases node,
{
    assert(subtree(*node)[0] == *node);
    f(node);
    if let Node::Template { arguments, .. } = node {
        let ghost below = preorder_arguments(arguments@);
        assert forall|i: int| 0 <= i < below.len() implies #[trigger] below[i] == subtree(
            *node,
        )[i + 1] by {}
        let mut k: usize = 0;
        while k < arguments.len()
            invariant
                k <= arguments@.len(),
                *f == *old(f),
                *node matches Node::Template { arguments: a, .. } && a == arguments,
                below == preorder_arguments(arguments@),
                forall|i: int|
                    0 <= i < below.len() ==> call_requires(*old(f), (&#[trigger] below[i],)),
                forall|i: int|
                    0 <= i < preorder_arguments(arguments@.take(k as int)).len() ==> call_ensures(
                        *old(f),
                        (&#[trigger] preorder_arguments(arguments@.take(k as int))[i],),
                        (),
                    ),
            decreases arguments@.len() - k,
        {
            proof {
                lemma_preorder_arguments_take(arguments@, k as int);
                lemma_preorder_arguments_prefix(arguments@, k + 1);
                let base = preorder_arguments(arguments@.take(k as int)).len();
                let inner = preorder(arguments@[k as int].value@);
                assert forall|i: int| 0 <= i < inner.len() implies #[trigger] inner[i] == below[base
                    + i] by {
                    assert(preorder_arguments(arguments@.take(k + 1))[base + i] == inner[i]);
                }
            }
            visit_nodes(arguments[k].value.as_slice(), f);
            k += 1;
        }
        assert(arguments@.take(k as int) == arguments@);
        assert forall|i: int| 0 <= i < subtree(*node).len() implies call_ensures(
            *old(f),
            (&#[trigger] subtree(*node)[i],),
            (),
        ) by {
            if i > 0 {
                assert(subtree(*node)[i] == below[i - 1]);
            }
        }
    }
}

/// The pre-order of one tree is the tree's root followed by the nodes
/// below it.
pub proof fn lemma_preorder_one(node: Node)
    ensures
        preorder(seq![node]) == subtree(node),
{
    assert(seq![node].drop_last() == Seq::<Node>::empty());
    assert(preorder(Seq::<Node>::empty()) == Seq::<Node>::empty());
    assert(seq![node].last() == node);
    assert(Seq::<Node>::empty() + subtree(node) == subtree(node));
}

/// The pre-order of the first `k + 1` trees is that of the first `k`
/// followed by the nodes of tree `k`.
pub proof fn lemma_preorder_take(nodes: Seq<Node>, k: int)
    requires
        0 <= k < nodes.len(),
    ensures
        preorder(nodes.take(k + 1)) == preorder(nodes.take(k)) + subtree(nodes[k]),
{
    assert(nodes.take(k + 1).drop_last() == nodes.take(k));
}

/// The pre-order of the first `k` trees is a prefix of the pre-order of
/// all of them.
pub proof fn lemma_preorder_prefix(nodes: Seq<Node>, k: int)
    requires
        0 <= k <= nodes.len(),
    ensures
        preorder(nodes.take(k)).len() <= preorder(nodes).len(),
        preorder(nodes.take(k)) == preorder(nodes).take(preorder(nodes.take(k)).len() as int),
    decreases nodes.len() - k,
{
    if k == nodes.len() {
        assert(nodes.take(k) == nodes);
    } else {
        lemma_preorder_prefix(nodes, k + 1);
        lemma_preorder_take(nodes, k);
    }
}

/// The pre-order of the first `k + 1` arguments is that of the first `k`
/// followed by the nodes of the value of argument `k`.
pub proof fn lemma_preorder_arguments_take(arguments: Seq<TemplateArgument>, k: int)
    requires
        0 <= k < arguments.len(),
    ensures
        preorder_arguments(arguments.take(k + 1)) == preorder_arguments(arguments.take(k))
            + preorder(arguments[k].value@),
{
    assert(arguments.take(k + 1).drop_last() == arguments.take(k));
}

/// The pre-order of the first `k` arguments is a prefix of the pre-order
/// of all of them.
pub proof fn lemma_preorder_arguments_prefix(arguments: Seq<TemplateArgument>, k: int)
    requires
        0 <= k <= arguments.len(),
    ensures
        preorder_arguments(arguments.take(k)).len() <= preorder_arguments(arguments).len(),
        preorder_arguments(arguments.take(k)) == preorder_arguments(arguments).take(
            preorder_arguments(arguments.take(k)).len() as int,
        ),
    decreases arguments.len() - k,
{
    if k == arguments.len() {
        assert(arguments.take(k) == arguments);
    } else {
        lemma_preorder_arguments_prefix(arguments, k + 1);
        lemma_preorder_arguments_take(arguments, k);
    }
}

/// Renders the node `elem` to the end of `s`: a text node appends its
/// text, an error node nothing, and for a template `template` is called
/// with the template's name, its arguments and `s`.
pub fn element_to_string<F: FnMut(&str, &[TemplateArgument], &mut String)>(
    elem: &Node,
    s: &mut String,
    template: &mut F,
)
    requires
        expandable(*old(template), *elem),
    ensures
        elem matches Node::Text(text) ==> final(s)@ == old(s)@ + text@,
        elem is Error ==> final(s)@ == old(s)@,
        elem matches Node::Template { name, arguments } ==> exists|
            n: &str,
            a: &[TemplateArgument],
            b: &mut String,
        |
            n@ == name@ && a@ == arguments@ && *b == *old(s) && *final(b) == *final(s)
                && #[trigger] call_ensures(*old(template), (n, a, b), ()),
        *final(template) == *old(template),
{
    match elem {
        Node::Text(text) => {
            s.append(text_of(text));
        },
        Node::Template { name, arguments } => {
            template(text_of(name), arguments.as_slice(), s);
        },
        Node::Error => {},
    }
}

/// Renders the nodes `nodes` to text, one after the other, with the
/// expansion `template`.
pub fn render<F: FnMut(&str, &[TemplateArgument], &mut String)>(nodes: &[Node], template: &mut F) -> (s:
    String)
    requires
        forall|i: int| 0 <= i < nodes@.len() ==> expandable(*old(template), #[trigger] nodes@[i]),
    ensures
        exists|states: Seq<Seq<char>>|
            #[trigger] traces(nodes@, states, s@) && forall|i: int|
                0 <= i < nodes@.len() ==> (#[trigger] nodes@[i] matches Node::Template {
                    name,
                    arguments,
                } ==> exists|n: &str, a: &[TemplateArgument], b: &mut String|
                    n@ == name@ && a@ == arguments@ && (*b)@ == states[i] && (*final(b))@
                        == states[i + 1] && #[trigger] call_ensures(
                        *old(template),
                        (n, a, b),
                        (),
                    )),
        *final(template) == *old(template),
{
    let mut s = String::new();
    let ghost mut states: Seq<Seq<char>> = seq![Seq::<char>::empty()];
    let mut k: usize = 0;
    while k < nodes.len()
        invariant
            k <= nodes@.len(),
            *template == *old(template),
            forall|i: int|
                0 <= i < nodes@.len() ==> expandable(*old(template), #[trigger] nodes@[i]),
            traces(nodes@.take(k as int), states, s@),
            forall|i: int|
                0 <= i < k ==> (#[trigger] nodes@[i] matches Node::Template {
                    name,
                    arguments,
                } ==> exists|n: &str, a: &[TemplateArgument], b: &mut String|
                    n@ == name@ && a@ == arguments@ && (*b)@ == states[i] && (*final(b))@
                        == states[i + 1] && #[trigger] call_ensures(
                        *old(template),
                        (n, a, b),
                        (),
                    )),
        decreases nodes@.len() - k,
    {
        let ghost before = states;
        element_to_string(&nodes[k], &mut s, template);
        proof {
            states = states.push(s@);
            assert forall|i: int| 0 <= i < k + 1 implies match #[trigger] nodes@.take(k + 1)[i] {
                Node::Text(text) => states[i + 1] == states[i] + text@,
                Node::Template { .. } => true,
                Node::Error => states[i + 1] == states[i],
            } by {
                if i < k {
                    assert(nodes@.take(k as int)[i] == nodes@.take(k + 1)[i]);
                    assert(before[i] == states[i] && before[i + 1] == states[i + 1]);
                }
            }
        }
        k += 1;
    }
    assert(nodes@.take(k as int) == nodes@);
    s
}

/// Whether every string in `node` and in the nodes below it is an owned
/// copy, so that the tree borrows from no other text.
pub open spec fn owned(node: Node) -> bool
    decreases node,
{
    match node {
        Node::Text(text) => text is Owned,
        Node::Template { name, arguments } => name is Owned && forall|i: int|
            0 <= i < arguments@.len() ==> owned_argument(#[trigger] arguments@[i]),
        Node::Error => true,
    }
}

/// Whether the name of `argument` and every string in its value is an
/// owned copy.
pub open spec fn owned_argument(argument: TemplateArgument) -> bool
    decreases argument,
{
    &&& argument.name matches Some(name) ==> name is Owned
    &&& forall|i: int|
        0 <= i < argument.value@.len() ==> owned(#[trigger] argument.value@[i])
}

/// A copy of `text` that owns its characters.
fn detach_text(text: &Cow<'_, str>) -> (r: Cow<'static, str>)
    ensures
        r@ == text@,
        r is Owned,
{
    Cow::Owned(text_of(text).to_owned())
}

/// A copy of `node` in which every string is owned, so that nothing in it
/// borrows from the text that `node` was parsed from.
pub fn detach_node(node: &Node) -> (r: Node<'static>)
    ensures
        r@ == node@,
        owned(r),
    decreases node,
{
    match node {
        Node::Text(text) => Node::Text(detach_text(text)),
        Node::Template { name, arguments } => {
            let mut copies: Vec<TemplateArgument<'static>> = Vec::new();
            let mut k: usize = 0;
            while k < arguments.len()
                invariant
                    k <= arguments@.len(),
                    *node matches Node::Template { arguments: a, .. } && a == arguments,
                    copies.deep_view() == arguments.deep_view().take(k as int),
                    forall|i: int| 0 <= i < copies@.len() ==> owned_argument(#[trigger] copies@[i]),
                decreases arguments@.len() - k,
            {
                let argument = &arguments[k];
                let value = argument.value.as_slice();
                assert(value.deep_view() == argument.value.deep_view());
                let copy = TemplateArgument {
                    name: match &argument.name {
                        Some(name) => Some(detach_text(name)),
                        None => None,
                    },
                    value: detach_nodes(value),
                };
                proof {
                    lemma_argument_view(copy);
                    lemma_argument_view(*argument);
                    assert(copy@ == argument@);
                    assert(owned_argument(copy));
                }
                let ghost before = copies.deep_view();
                copies.push(copy);
                assert(copies.deep_view() == before.push(copy@));
                assert(arguments.deep_view().take(k + 1) == arguments.deep_view().take(
                    k as int,
                ).push(argument@));
                k += 1;
            }
            assert(arguments.deep_view().take(k as int) == arguments.deep_view());
            let copy = Node::Template { name: detach_text(name), arguments: copies };
            proof {
                lemma_template_view(copy);
                lemma_template_view(*node);
            }
            copy
        },
        Node::Error => Node::Error,
    }
}

/// Copies of `nodes` in which every string is owned.
pub fn detach_nodes(nodes: &[Node]) -> (r: Vec<Node<'static>>)
    ensures
        r.deep_view() == nodes.deep_view(),
        forall|i: int| 0 <= i < r@.len() ==> owned(#[trigger] r@[i]),
    decreases nodes@,
{
    let mut copies: Vec<Node<'static>> = Vec::new();
    let mut k: usize = 0;
    while k < nodes.len()
        invariant
            k <= nodes@.len(),
            copies.deep_view() == nodes.deep_view().take(k as int),
            forall|i: int| 0 <= i < copies@.len() ==> owned(#[trigger] copies@[i]),
        decreases nodes@.len() - k,
    {
        let copy = detach_node(&nodes[k]);
        let ghost before = copies.deep_view();
        copies.push(copy);
        assert(copies.deep_view() == before.push(copy@));
        assert(nodes.deep_view().take(k + 1) == nodes.deep_view().take(k as int).push(
            nodes@[k as int]@,
        ));
        k += 1;
    }
    assert(nodes.deep_view().take(k as int) == nodes.deep_view());
    copies
}

/// Walking, rendering and detaching, for one node and for a sequence of
/// nodes alike.
pub trait NodeExt {
    /// The type of the detached copy.
    type Static;

    /// The trees that this value stands for.
    spec fn trees(&self) -> Seq<Node<'_>>;

    /// Whether `other` has the same value as `self` and owns every one of
    /// its strings.
    spec fn same_value(&self, other: &Self::Static) -> bool;

    /// Calls `f` on every node in pre-order: a node first, then the nodes of
    /// its arguments' values, argument by argument.
    fn traverse(&self, f: &mut impl FnMut(&Node))
        requires
            forall|i: int|
                0 <= i < preorder(self.trees()).len() ==> call_requires(
                    *old(f),
                    (&#[trigger] preorder(self.trees())[i],),
                ),
        ensures
            forall|i: int|
                0 <= i < preorder(self.trees()).len() ==> call_ensures(
                    *old(f),
                    (&#[trigger] preorder(self.trees())[i],),
                    (),
                ),
            *final(f) == *old(f),
    ;

    /// Renders to text: a text node gives its text, an error node nothing,
    /// and for a template `template` is called with the template's name,
    /// its arguments and the output so far.
    fn to_string(&self, template: impl FnMut(&str, &[TemplateArgument], &mut String)) -> (s:
        String)
        requires
            forall|i: int|
                0 <= i < self.trees().len() ==> expandable(template, #[trigger] self.trees()[i]),
        ensures
            exists|states: Seq<Seq<char>>|
                #[trigger] traces(self.trees(), states, s@) && forall|i: int|
                    0 <= i < self.trees().len() ==> (#[trigger] self.trees()[i] matches Node::Template {
                        name,
                        arguments,
                    } ==> exists|n: &str, a: &[TemplateArgument], b: &mut String|
                        n@ == name@ && a@ == arguments@ && (*b)@ == states[i] && (*final(b))@
                            == states[i + 1] && #[trigger] call_ensures(template, (n, a, b), ())),
    ;

    /// A deep copy in which every string is an owned copy of its own, so
    /// that the copy outlives the text that `self` was parsed from.
    fn to_static(&self) -> (r: Self::Static)
        ensures
            self.same_value(&r),
    ;
}

impl<'a> NodeExt for Node<'a> {
    type Static = Node<'static>;

    open spec fn trees(&self) -> Seq<Node<'_>> {
        seq![*self]
    }

    open spec fn same_value(&self, other: &Node<'static>) -> bool {
        other@ == self@ && owned(*other)
    }

    fn traverse(&self, f: &mut impl FnMut(&Node)) {
        proof {
            lemma_preorder_one(*self);
        }
        assert(self.trees() == seq![*self]);
        visit_node(self, f);
    }

    fn to_string(&self, mut template: impl FnMut(&str, &[TemplateArgument], &mut String)) -> (s:
        String) {
        let mut s = String::new();
        assert(self.trees()[0] == *self);
        element_to_string(self, &mut s, &mut template);
        proof {
            let states = seq![Seq::<char>::empty(), s@];
            assert(Seq::<char>::empty() + s@ == s@);
            assert(traces(self.trees(), states, s@));
        }
        s
    }

    fn to_static(&self) -> (r: Node<'static>) {
        detach_node(self)
    }
}

impl<'a> NodeExt for [Node<'a>] {
    type Static = Vec<Node<'static>>;

    open spec fn trees(&self) -> Seq<Node<'_>> {
        self@
    }

    open spec fn same_value(&self, other: &Vec<Node<'static>>) -> bool {
        other.deep_view() == self.deep_view() && forall|i: int|
            0 <= i < other@.len() ==> owned(#[trigger] other@[i])
    }

    fn traverse(&self, f: &mut impl FnMut(&Node)) {
        assert(self.trees() == self@);
        visit_nodes(self, f);
    }

    fn to_string(&self, mut template: impl FnMut(&str, &[TemplateArgument], &mut String)) -> (s:
        String) {
        assert(self.trees() == self@);
        render(self, &mut template)
    }

    fn to_static(&self) -> (r: Vec<Node<'static>>) {
        detach_nodes(self)
    }
}

/// The texts of the text nodes among `nodes`, one after the other.
pub open spec fn plain_text(nodes: Seq<Node>) -> Seq<char>
    decreases nodes.len(),
{
    if nodes.len() == 0 {
        seq![]
    } else {
        plain_text(nodes.drop_last()) + (match nodes.last() {
            Node::Text(text) => text@,
            _ => seq![],
        })
    }
}

/// Without a template among them, the first `k` nodes render to the texts
/// of their text nodes.
proof fn lemma_plain_prefix(nodes: Seq<Node>, states: Seq<Seq<char>>, k: int)
    requires
        states.len() == nodes.len() + 1,
        states[0] == Seq::<char>::empty(),
        plain_steps(nodes, states),
        forall|i: int| 0 <= i < nodes.len() ==> !(#[trigger] nodes[i] is Template),
        0 <= k <= nodes.len(),
    ensures
        states[k] == plain_text(nodes.take(k)),
    decreases k,
{
    if k > 0 {
        lemma_plain_prefix(nodes, states, k - 1);
        assert(nodes.take(k).drop_last() == nodes.take(k - 1));
        assert(nodes.take(k).last() == nodes[k - 1]);
        assert(!(nodes[k - 1] is Template));
    } else {
        assert(nodes.take(0) == Seq::<Node>::empty());
    }
}

/// Without a template among them, nodes render to the texts of their text
/// nodes, whatever the expansion.
pub proof fn lemma_render_plain(nodes: Seq<Node>, states: Seq<Seq<char>>, out: Seq<char>)
    requires
        traces(nodes, states, out),
        forall|i: int| 0 <= i < nodes.len() ==> !(#[trigger] nodes[i] is Template),
    ensures
        out == plain_text(nodes),
{
    lemma_plain_prefix(nodes, states, nodes.len() as int);
    assert(nodes.take(nodes.len() as int) == nodes);
}

/// Text without markup survives a round trip: where `nodes` is what the
/// text `s`, free of `{`, `}`, `|` and `=`, parses to, rendering `nodes`
/// gives `s` back, whatever the expansion.
pub proof fn lemma_round_trip(
    s: Seq<char>,
    nodes: Seq<Node>,
    states: Seq<Seq<char>>,
    out: Seq<char>,
)
    requires
        forall|k: int| 0 <= k < s.len() ==> !is_markup(#[trigger] s[k]),
        views(nodes) == document(s),
        traces(nodes, states, out),
    ensures
        out == s,
{
    lemma_plain_text_document(s);
    assert(views(nodes).len() == nodes.len());
    if s.len() > 0 {
        assert(views(nodes)[0] == nodes[0]@);
        assert(plain_text(nodes.drop_last()) == Seq::<char>::empty());
        assert(Seq::<char>::empty() + s == s);
    }
    lemma_render_plain(nodes, states, out);
}

} // verus!
