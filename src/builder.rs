use vstd::prelude::*;
use crate::attributes::{attributes_of, parse_attributes};
use crate::text::string_of;
use crate::tokenizer::{chars_in, lemma_tokens_len, scanned_text, tokenize_document, tokens_of, views_of};
use crate::tree::{arena_view, arena_wf, AttributeView, Node, NodeView};

verus! {

/// Where the builder stands between two characters.
#[derive(PartialEq, Eq, Structural, Clone, Copy)]
pub enum State {
    /// Ordinary text between tags.
    TagContent,
    /// Just after `<`.
    TagOpenOrCloseBegin,
    /// Reading a tag name.
    TagOpenBegin,
    /// Reading the raw attribute text of a tag.
    TagAttributes,
    /// Inside a quoted attribute value.
    TagAttributeValue,
    /// A tag that opens no scope: `<x/>`, or one whose name starts with `!` or `?`.
    TagSelfClosing,
    /// Just after `</`.
    TagCloseBegin,
}

/// Malformed input that the builder skipped over.
#[derive(PartialEq, Eq, Structural, Clone, Copy, Debug)]
pub enum ParseWarning {
    /// A close tag while no tag was open; the head stayed at the root.
    CloseAtRoot,
    /// A `>` right after `<`, which ends no tag.
    StrayTagEnd,
    /// The input ended inside a quoted attribute value.
    UnterminatedQuote,
}

/// The builder's progress. `opened` counts the tags that made the head
/// descend, `closed` the close tags that made it ascend; `leaves` holds the
/// indices of the nodes that self-closing tags and text runs created.
pub struct BuildState {
    pub mode: State,
    pub head: usize,
    pub tag: Seq<char>,
    pub attrs: Seq<char>,
    pub text: Seq<char>,
    pub nodes: Seq<NodeView>,
    pub opened: nat,
    pub closed: nat,
    pub warnings: Seq<ParseWarning>,
    pub leaves: Set<nat>,
}

pub open spec fn root_view() -> NodeView {
    NodeView { tag: "#document"@, attributes: Seq::empty(), parent: 0, children: Seq::empty(), value: None }
}

pub open spec fn initial_state() -> BuildState {
    BuildState {
        mode: State::TagContent,
        head: 0,
        tag: Seq::empty(),
        attrs: Seq::empty(),
        text: Seq::empty(),
        nodes: seq![root_view()],
        opened: 0,
        closed: 0,
        warnings: Seq::empty(),
        leaves: Set::empty(),
    }
}

/// A tag name that opens a declaration, comment or processing instruction.
pub open spec fn is_declaration(tag: Seq<char>) -> bool {
    tag.len() > 0 && (tag[0] == '!' || tag[0] == '?')
}

/// `c` appended to `buf`, after one space where a new token begins.
pub open spec fn with_char(buf: Seq<char>, c: char, boundary: bool) -> Seq<char> {
    if boundary {
        buf.push(' ').push(c)
    } else {
        buf.push(c)
    }
}

/// `c` appended to a text run; a space marks a token boundary, except at the
/// start of the run.
pub open spec fn with_text_char(text: Seq<char>, c: char, boundary: bool) -> Seq<char> {
    with_char(text, c, boundary && text.len() > 0)
}

/// `node` appended to the arena as the last child of `parent`.
pub open spec fn add_child(t: Seq<NodeView>, parent: usize, node: NodeView) -> Seq<NodeView> {
    let p = t[parent as int];
    t.push(node).update(
        parent as int,
        NodeView { children: p.children.push(t.len() as usize), ..p },
    )
}

pub open spec fn text_node(parent: usize, text: Seq<char>) -> NodeView {
    NodeView { tag: "#text"@, attributes: Seq::empty(), parent, children: Seq::empty(), value: Some(text) }
}

pub open spec fn element_node(parent: usize, tag: Seq<char>, attrs: Seq<char>) -> NodeView {
    NodeView { tag, attributes: attributes_of(attrs), parent, children: Seq::empty(), value: None }
}

/// On `<` in text: the pending text run, if any, becomes a `#text` child of
/// the head.
pub open spec fn flush_text(st: BuildState) -> BuildState {
    let nodes = if st.text.len() > 0 {
        add_child(st.nodes, st.head, text_node(st.head, st.text))
    } else {
        st.nodes
    };
    let leaves = if st.text.len() > 0 {
        st.leaves.insert(st.nodes.len())
    } else {
        st.leaves
    };
    BuildState { mode: State::TagOpenOrCloseBegin, text: Seq::empty(), nodes, leaves, ..st }
}

/// On the `>` that ends an opening tag: the element becomes a child of the
/// head, and the head descends into it unless the tag closes itself.
pub open spec fn finish_tag(st: BuildState, descend: bool) -> BuildState {
    let idx = st.nodes.len() as usize;
    BuildState {
        mode: State::TagContent,
        head: if descend { idx } else { st.head },
        tag: Seq::empty(),
        attrs: Seq::empty(),
        nodes: add_child(st.nodes, st.head, element_node(st.head, st.tag, st.attrs)),
        opened: if descend { st.opened + 1 } else { st.opened },
        leaves: if descend { st.leaves } else { st.leaves.insert(st.nodes.len()) },
        ..st
    }
}

/// On the `>` of a close tag: the head moves up to its parent (the root
/// stays where it is, being its own parent).
pub open spec fn close_tag(st: BuildState) -> BuildState {
    BuildState {
        mode: State::TagContent,
        head: st.nodes[st.head as int].parent,
        closed: if st.head != 0 { st.closed + 1 } else { st.closed },
        warnings: if st.head != 0 { st.warnings } else { st.warnings.push(ParseWarning::CloseAtRoot) },
        ..st
    }
}

/// One transition of the builder, on character `c`; `boundary` holds for the
/// first character of a token.
///
/// Quote characters are kept in the attribute text, and a `>` inside a
/// quoted value is part of the value (it ends the tag only in a declaration).
/// Malformed input is skipped: a close tag at the root leaves the head at the
/// root, and a `>` right after `<` is dropped (both are noted as warnings);
/// a `>` in text is text, and a tag still open when the input ends adds no
/// node.
pub open spec fn step(st: BuildState, c: char, boundary: bool) -> BuildState {
    match st.mode {
        State::TagContent => {
            if c == '<' {
                flush_text(st)
            } else {
                BuildState { text: with_text_char(st.text, c, boundary), ..st }
            }
        },
        State::TagOpenOrCloseBegin => {
            if c == '/' {
                BuildState { mode: State::TagCloseBegin, ..st }
            } else if c == '>' {
                BuildState { warnings: st.warnings.push(ParseWarning::StrayTagEnd), ..st }
            } else if c == '<' || c == '"' {
                st
            } else {
                BuildState { mode: State::TagOpenBegin, tag: st.tag.push(c), ..st }
            }
        },
        State::TagOpenBegin => {
            if c == '/' {
                BuildState { mode: State::TagSelfClosing, ..st }
            } else if c == '>' {
                finish_tag(st, !is_declaration(st.tag))
            } else if c == '<' || c == '"' {
                st
            } else if boundary {
                BuildState { mode: State::TagAttributes, attrs: st.attrs.push(c), ..st }
            } else {
                BuildState { tag: st.tag.push(c), ..st }
            }
        },
        State::TagAttributes => {
            if c == '"' {
                BuildState { mode: State::TagAttributeValue, attrs: with_char(st.attrs, c, boundary), ..st }
            } else if c == '/' {
                BuildState { mode: State::TagSelfClosing, ..st }
            } else if c == '>' {
                finish_tag(st, !is_declaration(st.tag))
            } else {
                BuildState { attrs: with_char(st.attrs, c, boundary), ..st }
            }
        },
        State::TagAttributeValue => {
            if c == '"' {
                BuildState { mode: State::TagAttributes, attrs: with_char(st.attrs, c, boundary), ..st }
            } else if c == '>' && is_declaration(st.tag) {
                finish_tag(st, false)
            } else {
                BuildState { attrs: with_char(st.attrs, c, boundary), ..st }
            }
        },
        State::TagSelfClosing => {
            if c == '>' {
                finish_tag(st, false)
            } else {
                st
            }
        },
        State::TagCloseBegin => {
            if c == '>' {
                close_tag(st)
            } else {
                st
            }
        },
    }
}

/// The builder after the characters of one token.
pub open spec fn run_token(st: BuildState, tok: Seq<char>) -> BuildState
    decreases tok.len(),
{
    if tok.len() == 0 {
        st
    } else {
        step(run_token(st, tok.drop_last()), tok.last(), tok.len() == 1)
    }
}

/// The builder after a sequence of tokens.
pub open spec fn run_tokens(st: BuildState, toks: Seq<Seq<char>>) -> BuildState
    decreases toks.len(),
{
    if toks.len() == 0 {
        st
    } else {
        run_token(run_tokens(st, toks.drop_last()), toks.last())
    }
}

/// The builder after a whole document, given as the text that the
/// tokenizer scans (one character per byte, see `scanned_text`).
pub open spec fn parse_state(document: Seq<char>) -> BuildState {
    run_tokens(initial_state(), tokens_of(document))
}

/// What the builder skipped over in a document, in order.
pub open spec fn parse_warnings(document: Seq<char>) -> Seq<ParseWarning> {
    let st = parse_state(document);
    if st.mode == State::TagAttributeValue {
        st.warnings.push(ParseWarning::UnterminatedQuote)
    } else {
        st.warnings
    }
}

/// The arena that a document yields.
pub open spec fn parse_document(document: Seq<char>) -> Seq<NodeView> {
    parse_state(document).nodes
}

/// Number of ancestors of node `i` below the root.
pub open spec fn depth(t: Seq<NodeView>, i: int) -> nat
    decreases i,
{
    if i <= 0 || i >= t.len() || t[i].parent as int >= i {
        0
    } else {
        1 + depth(t, t[i].parent as int)
    }
}

/// What holds of the builder between any two characters: the arena is well
/// formed, the head is one of its nodes, and the head lies as deep as the
/// number of descents not yet undone by an ascent.
pub open spec fn state_wf(st: BuildState) -> bool {
    &&& arena_wf(st.nodes)
    &&& st.head < st.nodes.len()
    &&& depth(st.nodes, st.head as int) + st.closed == st.opened
    &&& forall|k: nat| #[trigger] st.leaves.contains(k) ==> {
        &&& k < st.nodes.len()
        &&& st.nodes[k as int].children.len() == 0
        &&& k != st.head
    }
}

proof fn lemma_add_child_depth(t: Seq<NodeView>, p: usize, node: NodeView, i: int)
    requires
        arena_wf(t),
        p < t.len(),
        0 <= i < t.len(),
    ensures
        depth(add_child(t, p, node), i) == depth(t, i),
    decreases i,
{
    let u = add_child(t, p, node);
    assert(u[i].parent == t[i].parent);
    if i > 0 {
        lemma_add_child_depth(t, p, node, t[i].parent as int);
    }
}

proof fn lemma_add_child(t: Seq<NodeView>, p: usize, node: NodeView)
    requires
        arena_wf(t),
        p < t.len(),
        t.len() < usize::MAX,
        node.parent == p,
        node.children.len() == 0,
    ensures
        arena_wf(add_child(t, p, node)),
        add_child(t, p, node).len() == t.len() + 1,
        forall|i: int| 0 <= i < t.len() ==> depth(add_child(t, p, node), i) == depth(t, i),
        depth(add_child(t, p, node), t.len() as int) == depth(t, p as int) + 1,
{
    let u = add_child(t, p, node);
    let n = t.len() as usize;
    assert forall|i: int| 0 <= i < u.len() implies #[trigger] u[i].parent == (if i < t.len() { t[i].parent } else { p }) by {}
    assert forall|i: int, j: int| 0 <= i < u.len() && 0 <= j < u[i].children.len() implies {
        let c = #[trigger] u[i].children[j];
        &&& i < c < u.len()
        &&& u[c as int].parent == i
    } by {
        if i == p as int {
            if j < t[i].children.len() {
                assert(u[i].children[j] == t[i].children[j]);
            }
        } else {
            assert(u[i].children[j] == t[i].children[j]);
        }
    }
    assert forall|i: int, j: int, k: int|
        0 <= i < u.len() && 0 <= j < k < u[i].children.len() implies #[trigger] u[i].children[j]
            < #[trigger] u[i].children[k] by {
        if i == p as int {
            assert(u[i].children[j] == t[i].children[j]);
            if k < t[i].children.len() {
                assert(u[i].children[k] == t[i].children[k]);
            } else {
                let x = t[i].children[j];
                assert(x < t.len());
            }
        } else {
            assert(u[i].children[j] == t[i].children[j]);
            assert(u[i].children[k] == t[i].children[k]);
        }
    }
    assert forall|c: int| 0 < c < u.len() implies #[trigger] u[u[c].parent as int].children.contains(c as usize) by {
        if c < t.len() {
            let q = t[c].parent as int;
            assert(t[q].children.contains(c as usize));
            let j = choose|j: int| 0 <= j < t[q].children.len() && t[q].children[j] == c as usize;
            assert(u[q].children[j] == c as usize);
        } else {
            assert(u[p as int].children[t[p as int].children.len() as int] == n);
        }
    }
    assert forall|i: int| 0 <= i < t.len() implies depth(u, i) == depth(t, i) by {
        lemma_add_child_depth(t, p, node, i);
    }
    lemma_add_child_depth(t, p, node, p as int);
}

proof fn lemma_add_child_leaves(t: Seq<NodeView>, p: usize, node: NodeView, leaves: Set<nat>)
    requires
        p < t.len(),
        forall|k: nat| #[trigger] leaves.contains(k) ==> k < t.len() && t[k as int].children.len() == 0 && k != p,
    ensures
        forall|k: nat| #[trigger] leaves.contains(k) ==> add_child(t, p, node)[k as int].children.len() == 0,
        add_child(t, p, node)[t.len() as int] == node,
{
    assert forall|k: nat| #[trigger] leaves.contains(k) implies add_child(t, p, node)[k as int].children.len() == 0 by {
        assert(add_child(t, p, node)[k as int] == t[k as int]);
    }
}

proof fn lemma_step_wf(st: BuildState, c: char, boundary: bool)
    requires
        state_wf(st),
        st.nodes.len() < usize::MAX || step(st, c, boundary).nodes == st.nodes,
    ensures
        state_wf(step(st, c, boundary)),
        step(st, c, boundary).nodes.len() <= st.nodes.len() + 1,
{
    let t = st.nodes;
    if t.len() > 0 {
        assert(t[0].parent == 0);
    }
    if t.len() < usize::MAX {
        if st.text.len() > 0 {
            lemma_add_child(t, st.head, text_node(st.head, st.text));
            lemma_add_child_leaves(t, st.head, text_node(st.head, st.text), st.leaves);
        }
        lemma_add_child(t, st.head, element_node(st.head, st.tag, st.attrs));
        lemma_add_child_leaves(t, st.head, element_node(st.head, st.tag, st.attrs), st.leaves);
    }
    let h = st.head as int;
    if h > 0 {
        assert(t[h].parent < h);
        let q = t[h].parent as int;
        assert(t[q].children.contains(h as usize));
        assert(t[q].children.len() > 0);
        assert(!st.leaves.contains(q as nat));
    }
}

proof fn lemma_run_token_wf(st: BuildState, tok: Seq<char>)
    requires
        state_wf(st),
        st.nodes.len() + tok.len() < usize::MAX,
    ensures
        state_wf(run_token(st, tok)),
        run_token(st, tok).nodes.len() <= st.nodes.len() + tok.len(),
    decreases tok.len(),
{
    if tok.len() > 0 {
        lemma_run_token_wf(st, tok.drop_last());
        lemma_step_wf(run_token(st, tok.drop_last()), tok.last(), tok.len() == 1);
    }
}

proof fn lemma_run_tokens_wf(st: BuildState, toks: Seq<Seq<char>>)
    requires
        state_wf(st),
        st.nodes.len() + chars_in(toks) < usize::MAX,
    ensures
        state_wf(run_tokens(st, toks)),
        run_tokens(st, toks).nodes.len() <= st.nodes.len() + chars_in(toks),
    decreases toks.len(),
{
    if toks.len() > 0 {
        lemma_run_tokens_wf(st, toks.drop_last());
        lemma_run_token_wf(run_tokens(st, toks.drop_last()), toks.last());
    }
}

proof fn lemma_parse_state_wf(document: Seq<char>)
    requires
        document.len() + 1 < usize::MAX,
    ensures
        state_wf(parse_state(document)),
{
    lemma_tokens_len(document);
    assert(initial_state().nodes[0] == root_view());
    lemma_run_tokens_wf(initial_state(), tokens_of(document));
}

/// For every document, the arena is well formed: each node's children are
/// listed in strictly increasing order, each child names that node as its
/// parent, and every non-root node has a parent of smaller index.
pub proof fn lemma_arena_well_formed(document: Seq<char>)
    requires
        document.len() + 1 < usize::MAX,
    ensures
        arena_wf(parse_document(document)),
{
    lemma_parse_state_wf(document);
}

/// For every document, the builder ends back at the root exactly when the
/// close tags that moved it up are as many as the opening tags that moved
/// it down.
pub proof fn lemma_head_returns_to_root(document: Seq<char>)
    requires
        document.len() + 1 < usize::MAX,
    ensures
        parse_state(document).head == 0 <==> parse_state(document).opened
            == parse_state(document).closed,
{
    lemma_parse_state_wf(document);
    let st = parse_state(document);
    let h = st.head as int;
    if h > 0 {
        assert(st.nodes[h].parent < h);
    }
}

/// The `>` that ends a self-closing tag (`<x/>`, or a tag whose name starts
/// with `!` or `?`) adds one node whose parent is the head, and leaves the
/// head where it was.
pub proof fn lemma_self_closing_keeps_head(st: BuildState, boundary: bool)
    requires
        state_wf(st),
        st.mode == State::TagSelfClosing || (is_declaration(st.tag) && (st.mode
            == State::TagOpenBegin || st.mode == State::TagAttributes || st.mode
            == State::TagAttributeValue)),
    ensures
        step(st, '>', boundary).head == st.head,
        step(st, '>', boundary).opened == st.opened,
        step(st, '>', boundary).nodes.len() == st.nodes.len() + 1,
        step(st, '>', boundary).nodes.last().parent == st.head,
        step(st, '>', boundary).nodes.last().tag == st.tag,
        step(st, '>', boundary).leaves.contains(st.nodes.len()),
{
    let r = step(st, '>', boundary);
    assert(r.nodes[st.nodes.len() as int] == element_node(st.head, st.tag, st.attrs));
}

/// For every document, a node that a self-closing tag (`<x/>`, `<!...>`,
/// `<?...?>`) or a text run created never became the head, so it has no
/// children in the finished arena.
pub proof fn lemma_self_closing_nodes_stay_childless(document: Seq<char>)
    requires
        document.len() + 1 < usize::MAX,
    ensures
        forall|k: nat| #[trigger] parse_state(document).leaves.contains(k) ==> {
            &&& k < parse_document(document).len()
            &&& parse_document(document)[k as int].children.len() == 0
        },
{
    lemma_parse_state_wf(document);
}

/// The builder's working state: the arena and the five pieces of progress.
struct TreeBuilder {
    mode: State,
    head: usize,
    tag: Vec<char>,
    attrs: Vec<char>,
    text: Vec<char>,
    nodes: Vec<Node>,
    opened: Ghost<nat>,
    closed: Ghost<nat>,
    warnings: Vec<ParseWarning>,
    leaves: Ghost<Set<nat>>,
}

impl View for TreeBuilder {
    type V = BuildState;

    closed spec fn view(&self) -> BuildState {
        BuildState {
            mode: self.mode,
            head: self.head,
            tag: self.tag@,
            attrs: self.attrs@,
            text: self.text@,
            nodes: arena_view(self.nodes@),
            opened: self.opened@,
            closed: self.closed@,
            warnings: self.warnings@,
            leaves: self.leaves@,
        }
    }
}

fn push_with_char(buf: &mut Vec<char>, c: char, boundary: bool)
    ensures
        final(buf)@ == with_char(old(buf)@, c, boundary),
{
    if boundary {
        buf.push(' ');
    }
    buf.push(c);
}

/// Appends `node` to the arena as the last child of `parent`; returns its index.
fn add_node(nodes: &mut Vec<Node>, parent: usize, node: Node) -> (r: usize)
    requires
        parent < old(nodes)@.len(),
    ensures
        r == old(nodes)@.len(),
        r < usize::MAX,
        arena_view(final(nodes)@) == add_child(arena_view(old(nodes)@), parent, node@),
{
    let ghost t = arena_view(nodes@);
    let idx = nodes.len();
    nodes.push(node);
    assert(nodes.len() == idx + 1);
    nodes[parent].children.push(idx);
    assert(nodes@[parent as int]@ == NodeView { children: t[parent as int].children.push(idx), ..t[parent as int] });
    assert(arena_view(nodes@) =~= add_child(t, parent, node@));
    idx
}

impl TreeBuilder {
    fn new() -> (r: TreeBuilder)
        ensures
            r@ == initial_state(),
            state_wf(r@),
    {
        let root = Node {
            tag: "#document".to_owned(),
            attributes: Vec::new(),
            parent: 0,
            children: Vec::new(),
            value: None,
        };
        let mut nodes: Vec<Node> = Vec::new();
        nodes.push(root);
        let r = TreeBuilder {
            mode: State::TagContent,
            head: 0,
            tag: Vec::new(),
            attrs: Vec::new(),
            text: Vec::new(),
            nodes,
            opened: Ghost(0),
            closed: Ghost(0),
            warnings: Vec::new(),
            leaves: Ghost(Set::empty()),
        };
        assert(r@.warnings =~= Seq::<ParseWarning>::empty());
        assert(r@.nodes[0].attributes =~= Seq::<AttributeView>::empty());
        assert(r@.nodes =~= seq![root_view()]);
        assert(r@.tag =~= Seq::<char>::empty());
        r
    }

    fn is_declaration(&self) -> (r: bool)
        ensures
            r == is_declaration(self.tag@),
    {
        self.tag.len() > 0 && (self.tag[0] == '!' || self.tag[0] == '?')
    }

    fn flush_text(&mut self)
        requires
            state_wf(old(self)@),
        ensures
            final(self)@ == flush_text(old(self)@),
            old(self)@.text.len() > 0 ==> old(self)@.nodes.len() < usize::MAX,
    {
        if self.text.len() > 0 {
            let value = string_of(&self.text);
            let node = Node {
                tag: "#text".to_owned(),
                attributes: Vec::new(),
                parent: self.head,
                children: Vec::new(),
                value: Some(value),
            };
            assert(node@.attributes =~= Seq::<AttributeView>::empty());
            let idx = add_node(&mut self.nodes, self.head, node);
            self.leaves = Ghost(self.leaves@.insert(idx as nat));
        }
        self.text = Vec::new();
        self.mode = State::TagOpenOrCloseBegin;
    }

    fn finish_tag(&mut self, descend: bool)
        requires
            state_wf(old(self)@),
        ensures
            final(self)@ == finish_tag(old(self)@, descend),
            old(self)@.nodes.len() < usize::MAX,
    {
        let attributes = parse_attributes(&self.attrs);
        let tag = string_of(&self.tag);
        let node = Node { tag, attributes, parent: self.head, children: Vec::new(), value: None };
        let idx = add_node(&mut self.nodes, self.head, node);
        if descend {
            self.head = idx;
            self.opened = Ghost(self.opened@ + 1);
        } else {
            self.leaves = Ghost(self.leaves@.insert(idx as nat));
        }
        self.tag = Vec::new();
        self.attrs = Vec::new();
        self.mode = State::TagContent;
    }

    fn close_tag(&mut self)
        requires
            state_wf(old(self)@),
        ensures
            final(self)@ == close_tag(old(self)@),
    {
        if self.head != 0 {
            self.closed = Ghost(self.closed@ + 1);
        } else {
            self.warnings.push(ParseWarning::CloseAtRoot);
        }
        self.head = self.nodes[self.head].parent;
        self.mode = State::TagContent;
    }

    /// Feeds one character; `boundary` holds for the first character of a token.
    fn feed(&mut self, c: char, boundary: bool)
        requires
            state_wf(old(self)@),
        ensures
            final(self)@ == step(old(self)@, c, boundary),
            state_wf(final(self)@),
    {
        let ghost st = self@;
        match self.mode {
            State::TagContent => {
                if c == '<' {
                    self.flush_text();
                } else {
                    let space = boundary && self.text.len() > 0;
                    push_with_char(&mut self.text, c, space);
                }
            },
            State::TagOpenOrCloseBegin => {
                if c == '/' {
                    self.mode = State::TagCloseBegin;
                } else if c == '>' {
                    self.warnings.push(ParseWarning::StrayTagEnd);
                } else if c == '<' || c == '"' {
                } else {
                    self.mode = State::TagOpenBegin;
                    self.tag.push(c);
                }
            },
            State::TagOpenBegin => {
                if c == '/' {
                    self.mode = State::TagSelfClosing;
                } else if c == '>' {
                    let descend = !self.is_declaration();
                    self.finish_tag(descend);
                } else if c == '<' || c == '"' {
                } else if boundary {
                    self.mode = State::TagAttributes;
                    self.attrs.push(c);
                } else {
                    self.tag.push(c);
                }
            },
            State::TagAttributes => {
                if c == '"' {
                    self.mode = State::TagAttributeValue;
                    push_with_char(&mut self.attrs, c, boundary);
                } else if c == '/' {
                    self.mode = State::TagSelfClosing;
                } else if c == '>' {
                    let descend = !self.is_declaration();
                    self.finish_tag(descend);
                } else {
                    push_with_char(&mut self.attrs, c, boundary);
                }
            },
            State::TagAttributeValue => {
                if c == '"' {
                    self.mode = State::TagAttributes;
                    push_with_char(&mut self.attrs, c, boundary);
                } else if c == '>' && self.is_declaration() {
                    self.finish_tag(false);
                } else {
                    push_with_char(&mut self.attrs, c, boundary);
                }
            },
            State::TagSelfClosing => {
                if c == '>' {
                    self.finish_tag(false);
                }
            },
            State::TagCloseBegin => {
                if c == '>' {
                    self.close_tag();
                }
            },
        }
        proof {
            lemma_step_wf(st, c, boundary);
        }
    }
}

fn run_builder(tokens: &Vec<String>) -> (r: TreeBuilder)
    ensures
        r@ == run_tokens(initial_state(), views_of(tokens@)),
        state_wf(r@),
{
    let mut b = TreeBuilder::new();
    let mut i: usize = 0;
    while i < tokens.len()
        invariant
            i <= tokens@.len(),
            state_wf(b@),
            b@ == run_tokens(initial_state(), views_of(tokens@).take(i as int)),
        decreases tokens@.len() - i,
    {
        let token = &tokens[i];
        let ghost start = b@;
        let ghost tok = token@;
        let mut first = true;
        for c in it: token.as_str().chars()
            invariant
                it.seq() == tok,
                state_wf(b@),
                b@ == run_token(start, tok.take(it.index() as int)),
                first == (it.index() == 0),
        {
            assert(tok.take(it.index() as int + 1).drop_last() =~= tok.take(it.index() as int));
            b.feed(c, first);
            first = false;
        }
        proof {
            assert(tok.take(tok.len() as int) =~= tok);
            let vs = views_of(tokens@);
            assert(vs.take(i as int + 1).drop_last() =~= vs.take(i as int));
            assert(vs.take(i as int + 1).last() == tok);
        }
        i = i + 1;
    }
    assert(views_of(tokens@).take(i as int) =~= views_of(tokens@));
    b
}

/// Builds the node arena from a token sequence. Index 0 is the `#document`
/// root; text still pending when the tokens run out is dropped.
pub fn parse_tokens(tokens: &Vec<String>) -> (r: Vec<Node>)
    ensures
        arena_view(r@) == run_tokens(initial_state(), views_of(tokens@)).nodes,
        arena_wf(arena_view(r@)),
{
    let b = run_builder(tokens);
    b.nodes
}

/// Parses a document into its node arena: tokenizes it, then runs the
/// builder over the tokens.
pub fn build_document_tree(document: &str) -> (r: Vec<Node>)
    ensures
        arena_view(r@) == parse_document(scanned_text(document)),
        arena_wf(arena_view(r@)),
{
    let tokens = tokenize_document(document);
    parse_tokens(&tokens)
}

/// Parses a document as `build_document_tree` does, and also lists, in
/// order, the malformed constructs that were skipped over.
pub fn build_document_tree_with_warnings(document: &str) -> (r: (Vec<Node>, Vec<ParseWarning>))
    ensures
        arena_view(r.0@) == parse_document(scanned_text(document)),
        arena_wf(arena_view(r.0@)),
        r.1@ == parse_warnings(scanned_text(document)),
{
    let tokens = tokenize_document(document);
    let b = run_builder(&tokens);
    let mut warnings = b.warnings;
    if b.mode == State::TagAttributeValue {
        warnings.push(ParseWarning::UnterminatedQuote);
    }
    (b.nodes, warnings)
}

} // verus!
