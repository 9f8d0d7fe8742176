use vstd::prelude::*;
use crate::text::push_char;
use crate::tree::{arena_view, arena_wf, AttributeView, Node, NodeView};

verus! {

pub open spec fn spaces(n: nat) -> Seq<char> {
    Seq::new(n, |i: int| ' ')
}

/// ` [name=value]`, with an empty value for an attribute that has none.
pub open spec fn attribute_text(a: AttributeView) -> Seq<char> {
    let v = match a.value {
        Some(v) => v,
        None => Seq::empty(),
    };
    seq![' ', '['] + a.name + seq!['='] + v + seq![']']
}

pub open spec fn attributes_text(a: Seq<AttributeView>) -> Seq<char>
    decreases a.len(),
{
    if a.len() == 0 {
        Seq::empty()
    } else {
        attributes_text(a.drop_last()) + attribute_text(a.last())
    }
}

/// The lines of one node: its tag and attributes indented by two spaces per
/// level, then, for a text node, its text one level deeper.
pub open spec fn header_text(n: NodeView, depth: nat) -> Seq<char> {
    let line = spaces(2 * depth) + n.tag + attributes_text(n.attributes) + seq!['\n'];
    match n.value {
        Some(v) => line + spaces(2 * (depth + 1)) + v + seq!['\n'],
        None => line,
    }
}

/// Node `i` and its descendants, depth first, in document order.
pub open spec fn render_node(t: Seq<NodeView>, i: int, depth: nat) -> Seq<char>
    decreases t.len() - i, t[i].children.len() + 1,
{
    if 0 <= i < t.len() {
        header_text(t[i], depth) + render_children(t, i, depth, t[i].children.len() as int)
    } else {
        Seq::empty()
    }
}

/// The first `k` children of node `i`, rendered one level below it.
pub open spec fn render_children(t: Seq<NodeView>, i: int, depth: nat, k: int) -> Seq<char>
    decreases t.len() - i, k,
{
    if 0 <= i < t.len() && 0 < k <= t[i].children.len() {
        let c = t[i].children[k - 1] as int;
        render_children(t, i, depth, k - 1) + if i < c < t.len() {
            render_node(t, c, depth + 1)
        } else {
            Seq::empty()
        }
    } else {
        Seq::empty()
    }
}

fn push_str(out: &mut String, s: &str)
    ensures
        final(out)@ == old(out)@ + s@,
{
    let ghost start = out@;
    for c in it: s.chars()
        invariant
            it.seq() == s@,
            out@ == start + s@.take(it.index() as int),
    {
        push_char(out, c);
        assert(s@.take(it.index() as int + 1) =~= s@.take(it.index() as int).push(c));
    }
    assert(s@.take(s@.len() as int) =~= s@);
}

fn push_spaces(out: &mut String, n: usize)
    ensures
        final(out)@ == old(out)@ + spaces(2 * n as nat),
{
    let ghost start = out@;
    let mut i: usize = 0;
    while i < n
        invariant
            i <= n,
            out@ == start + spaces(2 * i as nat),
        decreases n - i,
    {
        push_char(out, ' ');
        push_char(out, ' ');
        assert(spaces(2 * (i + 1) as nat) =~= spaces(2 * i as nat).push(' ').push(' '));
        i = i + 1;
    }
}

fn push_header(out: &mut String, node: &Node, depth: usize)
    requires
        depth < usize::MAX,
    ensures
        final(out)@ == old(out)@ + header_text(node@, depth as nat),
{
    let ghost start = out@;
    push_spaces(out, depth);
    push_str(out, node.tag.as_str());
    let ghost attrs = node@.attributes;
    let mut j: usize = 0;
    while j < node.attributes.len()
        invariant
            j <= attrs.len(),
            attrs == node@.attributes,
            out@ == start + spaces(2 * depth as nat) + node@.tag + attributes_text(attrs.take(j as int)),
        decreases attrs.len() - j,
    {
        let a = &node.attributes[j];
        assert(attrs[j as int] == a@);
        let ghost before = out@;
        push_char(out, ' ');
        push_char(out, '[');
        push_str(out, a.name.as_str());
        push_char(out, '=');
        match &a.value {
            Some(v) => push_str(out, v.as_str()),
            None => {},
        }
        push_char(out, ']');
        assert(attrs.take(j as int + 1).drop_last() =~= attrs.take(j as int));
        assert(out@ =~= before + attribute_text(a@));
        j = j + 1;
    }
    assert(attrs.take(j as int) =~= attrs);
    push_char(out, '\n');
    match &node.value {
        Some(v) => {
            push_spaces(out, depth + 1);
            push_str(out, v.as_str());
            push_char(out, '\n');
        },
        None => {},
    }
    assert(out@ =~= start + header_text(node@, depth as nat));
}

fn print_node_with_depth(idx: usize, tree: &Vec<Node>, depth: usize, out: &mut String)
    requires
        arena_wf(arena_view(tree@)),
        idx < tree@.len(),
        depth + (tree@.len() - idx) <= usize::MAX,
    ensures
        final(out)@ == old(out)@ + render_node(arena_view(tree@), idx as int, depth as nat),
    decreases tree@.len() - idx,
{
    let ghost t = arena_view(tree@);
    let ghost start = out@;
    let node = &tree[idx];
    assert(t[idx as int] == node@);
    assert(idx < tree.len());
    push_header(out, node, depth);
    let mut k: usize = 0;
    while k < node.children.len()
        invariant
            arena_wf(t),
            t == arena_view(tree@),
            idx < t.len(),
            depth + (t.len() - idx) <= usize::MAX,
            k <= t[idx as int].children.len(),
            node@ == t[idx as int],
            out@ == start + header_text(t[idx as int], depth as nat) + render_children(
                t,
                idx as int,
                depth as nat,
                k as int,
            ),
        decreases t[idx as int].children.len() - k,
    {
        let c = node.children[k];
        assert(t[idx as int].children[k as int] == c);
        assert(idx < c < t.len());
        print_node_with_depth(c, tree, depth + 1, out);
        k = k + 1;
    }
    assert(out@ =~= start + render_node(t, idx as int, depth as nat));
}

/// Renders node `idx` and its subtree as an indented listing: one line per
/// node, `tag [name=value] ...`, two spaces of indent per level, and the
/// text of a text node on the line after its tag, one level deeper.
pub fn print_node(idx: usize, tree: &Vec<Node>) -> (r: String)
    requires
        arena_wf(arena_view(tree@)),
        idx < tree@.len(),
    ensures
        r@ == render_node(arena_view(tree@), idx as int, 0),
{
    let mut out = String::new();
    assert(tree@.len() == tree.len());
    print_node_with_depth(idx, tree, 0, &mut out);
    assert(out@ =~= render_node(arena_view(tree@), idx as int, 0));
    out
}

} // verus!
