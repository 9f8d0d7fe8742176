use markup_tree::attributes::parse_attributes;
use markup_tree::builder::{build_document_tree, build_document_tree_with_warnings, parse_tokens, ParseWarning};
use markup_tree::render::print_node;
use markup_tree::tokenizer::tokenize_document;
use markup_tree::tree::Node;

fn attr(n: &Node, i: usize) -> (String, Option<String>) {
    (n.attributes[i].name.clone(), n.attributes[i].value.clone())
}

fn check_shape(nodes: &Vec<Node>) {
    assert_eq!(nodes[0].tag, "#document");
    assert_eq!(nodes[0].parent, 0);
    for (i, n) in nodes.iter().enumerate() {
        for w in n.children.windows(2) {
            assert!(w[0] < w[1]);
        }
        for c in n.children.iter() {
            assert!(*c > i);
            assert_eq!(nodes[*c].parent, i);
        }
        if i > 0 {
            assert!(n.parent < i);
            assert!(nodes[n.parent].children.contains(&i));
        }
        assert_eq!(n.value.is_some(), n.tag == "#text");
    }
}

#[test]
fn tokenizer_splits_on_whitespace() {
    assert_eq!(tokenize_document("  <a>\thello \n\r world</a>  "), vec!["<a>", "hello", "world</a>"]);
}

#[test]
fn tokenizer_empty_and_blank() {
    assert!(tokenize_document("").is_empty());
    assert!(tokenize_document(" \t\n\r\x0C ").is_empty());
}

#[test]
fn attributes_in_order_with_quotes_kept() {
    let nodes = build_document_tree("<a x=1 y=\"2 3\" z></a>");
    assert_eq!(nodes.len(), 2);
    let a = &nodes[1];
    assert_eq!(a.tag, "a");
    assert_eq!(a.attributes.len(), 3);
    assert_eq!(attr(a, 0), ("x".to_string(), Some("1".to_string())));
    assert_eq!(attr(a, 1), ("y".to_string(), Some("\"2 3\"".to_string())));
    assert_eq!(attr(a, 2), ("z".to_string(), None));
}

#[test]
fn whitespace_in_text_collapses_to_one_space() {
    let nodes = build_document_tree("<p>hello   world</p>");
    assert_eq!(nodes.len(), 3);
    assert_eq!(nodes[1].children, vec![2]);
    assert_eq!(nodes[2].tag, "#text");
    assert_eq!(nodes[2].value, Some("hello world".to_string()));
}

#[test]
fn no_space_at_start_of_text_run() {
    let nodes = build_document_tree("<p>  hello\n</p>");
    assert_eq!(nodes[2].value, Some("hello".to_string()));
}

#[test]
fn empty_element_has_no_text_child() {
    let nodes = build_document_tree("<a></a>");
    assert_eq!(nodes.len(), 2);
    assert_eq!(nodes[1].tag, "a");
    assert!(nodes[1].children.is_empty());
    assert_eq!(nodes[0].children, vec![1]);
}

#[test]
fn books_scenario() {
    let nodes = build_document_tree("<books><book id=\"1\">Title</book></books>");
    assert_eq!(nodes.len(), 4);
    assert_eq!(nodes[0].tag, "#document");
    assert_eq!(nodes[0].children, vec![1]);
    assert_eq!(nodes[1].tag, "books");
    assert_eq!(nodes[1].parent, 0);
    assert_eq!(nodes[1].children, vec![2]);
    assert_eq!(nodes[2].tag, "book");
    assert_eq!(nodes[2].parent, 1);
    assert_eq!(nodes[2].attributes.len(), 1);
    assert_eq!(attr(&nodes[2], 0), ("id".to_string(), Some("\"1\"".to_string())));
    assert_eq!(nodes[2].children, vec![3]);
    assert_eq!(nodes[3].tag, "#text");
    assert_eq!(nodes[3].parent, 2);
    assert_eq!(nodes[3].value, Some("Title".to_string()));
    check_shape(&nodes);
}

#[test]
fn self_closing_tags_do_not_nest() {
    let nodes = build_document_tree("<a><b/><c x=1/><d></d></a>");
    assert_eq!(nodes.len(), 5);
    assert_eq!(nodes[1].children, vec![2, 3, 4]);
    for i in 2..5 {
        assert_eq!(nodes[i].parent, 1);
    }
    assert_eq!(nodes[2].tag, "b");
    assert_eq!(nodes[3].tag, "c");
    assert_eq!(attr(&nodes[3], 0), ("x".to_string(), Some("1".to_string())));
    check_shape(&nodes);
}

#[test]
fn declarations_and_comments_do_not_nest() {
    let nodes = build_document_tree("<?xml version=\"1.0\"?><!-- note --><r>t</r>");
    assert_eq!(nodes[0].children.len(), 3);
    assert_eq!(nodes[1].tag, "?xml");
    assert_eq!(nodes[2].tag, "!--");
    assert_eq!(nodes[3].tag, "r");
    assert_eq!(nodes[3].parent, 0);
    assert_eq!(nodes[4].parent, 3);
    check_shape(&nodes);
}

#[test]
fn closing_past_the_root_stays_at_root() {
    let nodes = build_document_tree("</x></y><c></c><d></d>");
    assert_eq!(nodes.len(), 3);
    assert_eq!(nodes[0].children, vec![1, 2]);
    check_shape(&nodes);
}

#[test]
fn trailing_text_is_dropped() {
    let nodes = build_document_tree("<a>kept<b/>tail");
    assert_eq!(nodes.len(), 4);
    assert_eq!(nodes[2].value, Some("kept".to_string()));
    assert_eq!(nodes[3].tag, "b");
}

#[test]
fn angle_bracket_inside_quotes_is_kept() {
    let nodes = build_document_tree("<a t=\"x>y\">in</a>");
    assert_eq!(nodes[1].tag, "a");
    assert_eq!(attr(&nodes[1], 0), ("t".to_string(), Some("\"x>y\"".to_string())));
    assert_eq!(nodes[2].value, Some("in".to_string()));
}

#[test]
fn duplicate_attributes_are_kept() {
    let nodes = build_document_tree("<a k=1 k=2>");
    assert_eq!(nodes[1].attributes.len(), 2);
    assert_eq!(attr(&nodes[1], 0), ("k".to_string(), Some("1".to_string())));
    assert_eq!(attr(&nodes[1], 1), ("k".to_string(), Some("2".to_string())));
}

#[test]
fn value_split_at_first_equals() {
    let nodes = build_document_tree("<a q=b=c empty=>");
    assert_eq!(attr(&nodes[1], 0), ("q".to_string(), Some("b=c".to_string())));
    assert_eq!(attr(&nodes[1], 1), ("empty".to_string(), Some("".to_string())));
}

#[test]
fn text_keeps_slashes_and_closing_brackets() {
    let nodes = build_document_tree("<a>a/b > c</a>");
    assert_eq!(nodes[2].value, Some("a/b > c".to_string()));
}

#[test]
fn parse_attributes_splits_outside_quotes() {
    let buffer: Vec<char> = "x=1  y=\"2 3\"\tz".chars().collect();
    let attrs = parse_attributes(&buffer);
    assert_eq!(attrs.len(), 3);
    assert_eq!(attrs[0].name, "x");
    assert_eq!(attrs[1].value, Some("\"2 3\"".to_string()));
    assert_eq!(attrs[2].value, None);
}

#[test]
fn parse_tokens_on_given_tokens() {
    let tokens = vec!["<a".to_string(), "k=v>one".to_string(), "two</a>".to_string()];
    let nodes = parse_tokens(&tokens);
    assert_eq!(nodes[1].tag, "a");
    assert_eq!(attr(&nodes[1], 0), ("k".to_string(), Some("v".to_string())));
    assert_eq!(nodes[2].value, Some("one two".to_string()));
}

#[test]
fn nested_tree_is_ordered() {
    let nodes = build_document_tree(
        "<r> a <x><y>b</y> c </x><z q=\"1\"/> d <w><v></v></w></r> extra </r></r>",
    );
    check_shape(&nodes);
    assert_eq!(nodes[1].tag, "r");
}

#[test]
fn printed_listing() {
    let nodes = build_document_tree("<books><book id=\"1\" z>Title</book></books>");
    let out = print_node(0, &nodes);
    assert_eq!(out, "#document\n  books\n    book [id=\"1\"] [z=]\n      #text\n        Title\n");
}

#[test]
fn printed_subtree() {
    let nodes = build_document_tree("<a><b>x</b></a>");
    assert_eq!(print_node(2, &nodes), "b\n  #text\n    x\n");
}

#[test]
fn balanced_tags_return_to_root() {
    let nodes = build_document_tree("<a><b></b><c><d/></c></a><e></e>");
    assert_eq!(nodes[0].children, vec![1, 5]);
    assert_eq!(nodes[5].tag, "e");
    assert_eq!(nodes[5].parent, 0);
    check_shape(&nodes);
}

#[test]
fn well_formed_input_has_no_warnings() {
    let (nodes, warnings) = build_document_tree_with_warnings("<a x=\"1\"><b/>t</a>");
    assert_eq!(nodes.len(), 4);
    assert!(warnings.is_empty());
}

#[test]
fn close_at_root_is_warned() {
    let (nodes, warnings) = build_document_tree_with_warnings("<a></a></a><b></b>");
    assert_eq!(warnings, vec![ParseWarning::CloseAtRoot]);
    assert_eq!(nodes[0].children, vec![1, 2]);
}

#[test]
fn stray_tag_end_is_warned() {
    let (nodes, warnings) = build_document_tree_with_warnings("<>x>");
    assert_eq!(warnings, vec![ParseWarning::StrayTagEnd]);
    assert_eq!(nodes.len(), 2);
    assert_eq!(nodes[1].tag, "x");
}

#[test]
fn unterminated_quote_is_warned() {
    let (nodes, warnings) = build_document_tree_with_warnings("<a k=\"open > still");
    assert_eq!(warnings, vec![ParseWarning::UnterminatedQuote]);
    assert_eq!(nodes.len(), 1);
}

#[test]
fn warnings_keep_their_order() {
    let (_, warnings) = build_document_tree_with_warnings("</x><>y></y><z q=\"");
    assert_eq!(
        warnings,
        vec![ParseWarning::CloseAtRoot, ParseWarning::StrayTagEnd, ParseWarning::UnterminatedQuote]
    );
}

#[test]
fn non_ascii_bytes_become_one_char_each() {
    assert_eq!(
        tokenize_document("caf\u{e9} \u{e9}"),
        vec!["caf\u{c3}\u{a9}".to_string(), "\u{c3}\u{a9}".to_string()]
    );
}

#[test]
fn non_breaking_space_is_not_whitespace() {
    assert_eq!(tokenize_document("a\u{a0}b c"), vec!["a\u{c2}\u{a0}b", "c"]);
}

#[test]
fn non_ascii_text_is_kept_byte_by_byte() {
    let nodes = build_document_tree("<p>\u{e9}t\u{e9}</p>");
    assert_eq!(nodes[2].value, Some("\u{c3}\u{a9}t\u{c3}\u{a9}".to_string()));
}

#[test]
fn printed_listing_deeper_than_index() {
    let nodes = build_document_tree("<a><b><c>x</c></b></a>");
    assert_eq!(print_node(3, &nodes), "c\n  #text\n    x\n");
    assert_eq!(
        print_node(0, &nodes),
        "#document\n  a\n    b\n      c\n        #text\n          x\n"
    );
}

#[test]
fn self_closing_nodes_never_get_children() {
    let nodes = build_document_tree("<r><x/> <y a=1/> <!-- c --> <?p q?> t <z></z></r>");
    for n in nodes.iter() {
        if n.tag == "x" || n.tag == "y" || n.tag == "!--" || n.tag == "?p" || n.tag == "#text" {
            assert!(n.children.is_empty());
            assert_eq!(n.parent, 1);
        }
    }
    assert_eq!(nodes[1].children.len(), 6);
    check_shape(&nodes);
}
