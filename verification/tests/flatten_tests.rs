use nhk_text::classify_node;
use nhk_text::flatten_nodes;
use nhk_text::flatten_subtree;
use nhk_text::handle_ruby;
use nhk_text::render;
use nhk_text::FlattenError;
use nhk_text::Kind;
use nhk_text::NhkText;
use nhk_text::Node;

fn text(s: &str) -> Node {
    Node::Text(s.to_string())
}

fn elem(tag: &str, children: Vec<Node>) -> Node {
    Node::Element { tag: tag.to_string(), children }
}

fn flatten_and_render(root: Node) -> String {
    render(&flatten_subtree(&root).unwrap())
}

#[test]
fn classify_text_node() {
    assert_eq!(classify_node(&text("こんにちは")), Kind::Text);
}

#[test]
fn classify_each_tag() {
    assert_eq!(classify_node(&elem("p", vec![])), Kind::Paragraph);
    assert_eq!(classify_node(&elem("a", vec![])), Kind::Link);
    assert_eq!(classify_node(&elem("span", vec![])), Kind::InlineSpan);
    assert_eq!(classify_node(&elem("ruby", vec![])), Kind::Ruby);
}

#[test]
fn classify_unknown_tag() {
    assert_eq!(classify_node(&elem("div", vec![])), Kind::Unrecognized);
    assert_eq!(classify_node(&elem("rt", vec![])), Kind::Unrecognized);
    assert_eq!(classify_node(&elem("", vec![])), Kind::Unrecognized);
}

#[test]
fn repeated_calls_identical() {
    let make = || {
        elem(
            "p",
            vec![
                text("見て"),
                elem("ruby", vec![text("space"), elem("rt", vec![text("s")])]),
            ],
        )
    };
    let first = flatten_and_render(make());
    let second = flatten_and_render(make());
    assert_eq!(first, second);
    assert_eq!(first, "見てspace[s]");
}

#[test]
fn order_preserved() {
    let root = elem("p", vec![text("A"), text("B"), text("C")]);
    let frags = flatten_subtree(&root).unwrap();
    let contents: Vec<String> = frags.iter().map(|f| f.content.clone()).collect();
    assert_eq!(contents, vec!["A".to_string(), "B".to_string(), "C".to_string()]);
    assert_eq!(render(&frags), "ABC");
}

#[test]
fn unrecognized_skipped() {
    let with_wrapper = elem(
        "p",
        vec![text("前"), elem("wbr", vec![text("hidden")]), text("後")],
    );
    let without_wrapper = elem("p", vec![text("前"), text("後")]);
    assert_eq!(
        flatten_and_render(with_wrapper),
        flatten_and_render(without_wrapper)
    );
}

#[test]
fn ruby_round_trip() {
    let ruby = elem("ruby", vec![text("今日"), elem("rt", vec![text("きょう")])]);
    let frags = flatten_subtree(&ruby).unwrap();
    assert_eq!(frags.len(), 1);
    assert_eq!(frags[0].content, "今日");
    assert_eq!(frags[0].annotation, Some("きょう".to_string()));
    assert_eq!(render(&frags), "今日[きょう]");
}

#[test]
fn nested_base_ruby() {
    let ruby = elem(
        "ruby",
        vec![
            elem("span", vec![text("明日")]),
            elem("rt", vec![text("あした")]),
        ],
    );
    assert_eq!(flatten_and_render(ruby), "明日[あした]");
}

#[test]
fn multi_reading_tie_break() {
    let ruby = elem(
        "ruby",
        vec![
            text("青空"),
            elem("rt", vec![text("あお")]),
            elem("rt", vec![text("ぞら")]),
        ],
    );
    assert_eq!(flatten_and_render(ruby), "青空[あお]");
}

#[test]
fn plain_text_passthrough() {
    let root = elem("p", vec![text("こんにちは")]);
    assert_eq!(flatten_and_render(root), "こんにちは");
}

#[test]
fn malformed_ruby_without_reading() {
    let ruby = elem("ruby", vec![text("今日")]);
    assert_eq!(
        flatten_subtree(&ruby),
        Err(FlattenError::MalformedRubyNode)
    );
}

#[test]
fn mixed_container() {
    let root = elem(
        "p",
        vec![
            text("見て"),
            elem("ruby", vec![text("space"), elem("rt", vec![text("s")])]),
            text("ください"),
        ],
    );
    assert_eq!(flatten_and_render(root), "見てspace[s]ください");
}

#[test]
fn ruby_with_no_children_is_malformed() {
    assert_eq!(
        handle_ruby(&vec![]),
        Err(FlattenError::MalformedRubyNode)
    );
}

#[test]
fn ruby_base_wrapper_without_text_is_malformed() {
    assert_eq!(
        handle_ruby(&vec![elem("span", vec![]), elem("rt", vec![text("よみ")])]),
        Err(FlattenError::MalformedRubyNode)
    );
    assert_eq!(
        handle_ruby(&vec![
            elem("span", vec![elem("b", vec![])]),
            elem("rt", vec![text("よみ")]),
        ]),
        Err(FlattenError::MalformedRubyNode)
    );
}

#[test]
fn ruby_with_empty_reading_element_is_malformed() {
    assert_eq!(
        handle_ruby(&vec![text("今日"), elem("rt", vec![])]),
        Err(FlattenError::MalformedRubyNode)
    );
}

#[test]
fn ruby_with_non_text_reading_is_malformed() {
    let children = vec![
        text("今日"),
        elem("rt", vec![text("きょう")]),
        elem("rt", vec![elem("span", vec![text("x")])]),
    ];
    assert_eq!(handle_ruby(&children), Err(FlattenError::MalformedRubyNode));
}

#[test]
fn ruby_extraction_succeeds() {
    let children = vec![text("今日"), elem("rt", vec![text("きょう")])];
    let frag = handle_ruby(&children).unwrap();
    assert_eq!(frag.content, "今日");
    assert_eq!(frag.annotation, Some("きょう".to_string()));
}

#[test]
fn malformed_ruby_fails_whole_container() {
    let root = elem("p", vec![text("前"), elem("ruby", vec![text("今日")])]);
    assert_eq!(
        flatten_subtree(&root),
        Err(FlattenError::MalformedRubyNode)
    );
}

#[test]
fn unrecognized_root_is_a_no_op() {
    let root = elem("div", vec![text("中身")]);
    let frags = flatten_subtree(&root).unwrap();
    assert!(frags.is_empty());
    assert_eq!(render(&frags), "");
}

#[test]
fn flatten_nodes_concatenates_siblings() {
    let nodes = vec![
        text("一"),
        elem("comment-box", vec![text("skip me")]),
        elem("a", vec![text("二")]),
        elem("span", vec![text("三")]),
    ];
    let frags = flatten_nodes(&nodes).unwrap();
    assert_eq!(render(&frags), "一二三");
}

#[test]
fn flatten_nodes_reports_first_error() {
    let nodes = vec![text("一"), elem("ruby", vec![])];
    assert_eq!(flatten_nodes(&nodes), Err(FlattenError::MalformedRubyNode));
}

#[test]
fn to_string_with_annotation() {
    let frag = NhkText {
        content: "今日".to_string(),
        annotation: Some("きょう".to_string()),
    };
    assert_eq!(frag.to_string(), "今日[きょう]");
}

#[test]
fn to_string_without_annotation() {
    let frag = NhkText {
        content: "こんにちは".to_string(),
        annotation: None,
    };
    assert_eq!(frag.to_string(), "こんにちは");
}

#[test]
fn render_empty_sequence() {
    assert_eq!(render(&vec![]), "");
}

#[test]
fn render_joins_without_separator() {
    let frags = vec![
        NhkText {
            content: "a".to_string(),
            annotation: None,
        },
        NhkText {
            content: "b".to_string(),
            annotation: Some("c".to_string()),
        },
    ];
    assert_eq!(render(&frags), "ab[c]");
}

#[test]
fn deep_nesting_flattens_in_document_order() {
    let root = elem(
        "p",
        vec![
            elem(
                "a",
                vec![elem("span", vec![text("深い")]), text("リンク")],
            ),
            text("と"),
            elem("ruby", vec![text("本"), elem("rt", vec![text("ほん")])]),
        ],
    );
    assert_eq!(flatten_and_render(root), "深いリンクと本[ほん]");
}

#[test]
fn whitespace_text_preserved() {
    let root = elem("p", vec![text("a"), text("  "), text("b")]);
    assert_eq!(flatten_and_render(root), "a  b");
}
