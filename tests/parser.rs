use liquid_doc_parser::{
    parse_liquid_string, visit, LiquidAST, LiquidNode, LiquidParser, Pair, Position, Rule, TextNode,
};

fn positions(node: &LiquidNode) -> Vec<(usize, usize)> {
    let p = |pos: &Position| (pos.start, pos.end);
    match node {
        LiquidNode::LiquidDocDescriptionNode(d) => vec![p(&d.position), p(&d.content.position)],
        LiquidNode::TextNode(t) => vec![p(&t.position)],
        LiquidNode::LiquidDocParamNode(n) => {
            let mut v = vec![p(&n.position), p(&n.param_name.position)];
            if let Some(t) = &n.param_type {
                v.push(p(&t.position));
            }
            if let Some(d) = &n.param_description {
                v.push(p(&d.position));
            }
            v
        }
        LiquidNode::LiquidDocExampleNode(e) => vec![p(&e.position), p(&e.content.position)],
    }
}

#[test]
fn parser_test_serialization_round_trip() {
    let input = "@param {sometype} requiredParamWithSomeType - This is a cool parameter";
    let ast = parse_liquid_string(input, Some(10)).unwrap();
    assert_eq!(ast.len(), 1);
    match &ast.nodes[0] {
        LiquidNode::LiquidDocParamNode(p) => {
            assert_eq!(p.name, "param");
            assert_eq!(p.position, Position { start: 10, end: 80 });
            assert!(p.required);
            assert_eq!(p.param_type.as_ref().unwrap().value, "sometype");
            assert_eq!(p.param_type.as_ref().unwrap().position, Position { start: 18, end: 26 });
            assert_eq!(p.param_name.value, "requiredParamWithSomeType");
            assert_eq!(p.param_name.position, Position { start: 28, end: 53 });
            assert_eq!(p.param_description.as_ref().unwrap().value, "This is a cool parameter");
            assert_eq!(p.param_description.as_ref().unwrap().position, Position { start: 56, end: 80 });
        }
        _ => panic!("Expected a LiquidDocParamNode"),
    }
}

#[test]
fn test_serialization_round_trip_with_description() {
    let input = "kdkd

@param {sometype} requiredParamWithSomeType - This is a cool parameter";
    let ast = parse_liquid_string(input, Some(10)).unwrap();
    assert_eq!(ast.len(), 2);
    assert_eq!(positions(&ast.nodes[0]), vec![(10, 16), (10, 16)]);
    assert_eq!(positions(&ast.nodes[1]), vec![(16, 86), (34, 59), (24, 32), (62, 86)]);
    match &ast.nodes[0] {
        LiquidNode::LiquidDocDescriptionNode(d) => {
            assert_eq!(d.content.value, "kdkd\n\n");
            assert!(d.is_implicit);
            assert!(d.is_inline);
            assert_eq!(d.name, "description");
        }
        _ => panic!("Expected a LiquidDocDescriptionNode"),
    }
}

#[test]
fn parser_test_serialization_round_trip_with_explicit_description() {
    let input = "@description kdkd

@param {sometype} requiredParamWithSomeType - This is a cool parameter";
    let ast = parse_liquid_string(input, Some(10)).unwrap();
    assert_eq!(ast.len(), 2);
    assert_eq!(positions(&ast.nodes[0]), vec![(10, 29), (23, 29)]);
    assert_eq!(positions(&ast.nodes[1]), vec![(29, 99), (47, 72), (37, 45), (75, 99)]);
    match &ast.nodes[0] {
        LiquidNode::LiquidDocDescriptionNode(d) => {
            assert_eq!(d.content.value, "kdkd\n\n");
            assert!(!d.is_implicit);
        }
        _ => panic!("Expected a LiquidDocDescriptionNode"),
    }
}

#[test]
fn malformed_input_gives_no_tree() {
    assert!(parse_liquid_string("@param", None).is_none());
    assert!(parse_liquid_string("@param {sometype requiredName", Some(10)).is_none());
    assert!(parse_liquid_string("@param {sometype}", None).is_none());
    assert!(parse_liquid_string("@param [unclosed - text", None).is_none());
    assert!(parse_liquid_string("@param name extra words", None).is_none());
    assert!(parse_liquid_string("intro\n@param {T}name", None).is_none());
    assert!(LiquidParser::parse("@param").is_none());
}

#[test]
fn parsing_twice_gives_the_same_nodes() {
    let input = "lead\n@param {T} [a] - b\n@example x\n@description y\n@other z";
    let first = parse_liquid_string(input, Some(4)).unwrap();
    let second = parse_liquid_string(input, Some(4)).unwrap();
    assert_eq!(format!("{:?}", first), format!("{:?}", second));
}

#[test]
fn offset_moves_every_position() {
    let input = "lead\n@param {T} [a] - b\n@example x\n@description y\n@other z";
    let plain = parse_liquid_string(input, None).unwrap();
    let zero = parse_liquid_string(input, Some(0)).unwrap();
    let moved = parse_liquid_string(input, Some(7)).unwrap();
    assert_eq!(plain.len(), 5);
    assert_eq!(moved.len(), plain.len());
    for i in 0..plain.len() {
        assert_eq!(positions(&plain.nodes[i]), positions(&zero.nodes[i]));
        let shifted: Vec<(usize, usize)> =
            positions(&plain.nodes[i]).iter().map(|(s, e)| (s + 7, e + 7)).collect();
        assert_eq!(positions(&moved.nodes[i]), shifted);
    }
}

#[test]
fn unknown_tags_become_text() {
    let input = "intro\n@unsupported this node falls back to a text node";
    let ast = parse_liquid_string(input, None).unwrap();
    assert_eq!(ast.len(), 2);
    let text = ast.nodes[1].as_text_node_unsafe();
    assert_eq!(text.value, "@unsupported this node falls back to a text node");
    assert_eq!(text.position, Position { start: 6, end: 54 });
    assert_eq!(text.source, text.value);
}

#[test]
fn prompt_and_fallback_tags_are_skipped() {
    let ast = parse_liquid_string("@prompt do this\n@fallback or that\n@example e", None).unwrap();
    assert_eq!(ast.len(), 1);
    assert!(matches!(ast.head(), LiquidNode::LiquidDocExampleNode(_)));
}

#[test]
fn tag_word_must_end_at_a_space() {
    let ast = parse_liquid_string("@parameter x", None).unwrap();
    assert_eq!(ast.len(), 1);
    assert_eq!(ast.head().as_text_node_unsafe().value, "@parameter x");
}

#[test]
fn visit_builds_from_a_synthetic_tree() {
    let input = "abc\n@example one\n@description \n@x";
    let leaf = |rule, start, end| Pair { rule, start, end, inner: Vec::new() };
    let tree = Pair {
        rule: Rule::Document,
        start: 0,
        end: input.len(),
        inner: vec![
            Pair {
                rule: Rule::ImplicitDescription,
                start: 0,
                end: 4,
                inner: vec![leaf(Rule::ImplicitDescriptionContent, 0, 4)],
            },
            Pair {
                rule: Rule::LiquidDocNode,
                start: 4,
                end: 17,
                inner: vec![leaf(Rule::ExampleNode, 4, 17)],
            },
            Pair {
                rule: Rule::LiquidDocNode,
                start: 17,
                end: 31,
                inner: vec![leaf(Rule::DescriptionNode, 17, 31)],
            },
            leaf(Rule::TextNode, 31, 33),
            leaf(Rule::TextNode, 33, 33),
            leaf(Rule::EOI, 33, 33),
        ],
    };
    let mut ast = LiquidAST::new();
    visit(&mut ast, input, &tree, Some(100));
    assert_eq!(ast.len(), 4);
    assert_eq!(positions(&ast.nodes[0]), vec![(100, 104), (100, 104)]);
    assert_eq!(positions(&ast.nodes[1]), vec![(104, 117), (113, 117)]);
    match &ast.nodes[2] {
        LiquidNode::LiquidDocDescriptionNode(d) => {
            assert_eq!(d.content.value, "\n");
            assert_eq!(d.content.position, Position { start: 130, end: 131 });
        }
        _ => panic!("Expected a LiquidDocDescriptionNode"),
    }
    assert_eq!(ast.nodes[3].as_text_node_unsafe().value, "@x");
}

#[test]
fn position_operations() {
    let mut p = Position::new(3, 9, Some(10));
    assert_eq!(p, Position { start: 13, end: 19 });
    assert_eq!(Position::new(3, 9, None), Position { start: 3, end: 9 });
    p.shift_start(2);
    assert_eq!(p, Position { start: 15, end: 19 });
    p.shift_end_down(1);
    assert_eq!(p, Position { start: 15, end: 18 });
}

#[test]
fn text_node_trims_a_prefix_once() {
    let mut t = TextNode::new(
        "@example @example x".to_string(),
        Position { start: 5, end: 24 },
        "src".to_string(),
    );
    t.trim_content_start("@example ");
    assert_eq!(t.as_str(), "@example x");
    assert_eq!(t.position, Position { start: 14, end: 24 });
    t.trim_content_start("nope");
    assert_eq!(t.as_str(), "@example x");
    assert_eq!(t.position, Position { start: 14, end: 24 });
    assert!(!t.is_empty());
    t.trim_content_start("@example x");
    assert!(t.is_empty());
    assert_eq!(t.position, Position { start: 24, end: 24 });
}

#[test]
fn text_node_without_brackets_from_pairs() {
    let input = "[[name]]";
    let whole = Pair { rule: Rule::ParamName, start: 0, end: 8, inner: Vec::new() };
    let t = TextNode::without_brackets(input, &whole, &whole, Some(1));
    assert_eq!(t.value, "name");
    assert_eq!(t.position, Position { start: 3, end: 7 });
    assert_eq!(t.source, input);
    let plain = TextNode::from_pair(input, &whole, &whole, None);
    assert_eq!(plain.value, input);

    // Only opening brackets leave the front and closing ones the back.
    let reversed = "]x[";
    let span = Pair { rule: Rule::ParamName, start: 0, end: 3, inner: Vec::new() };
    let t = TextNode::without_brackets(reversed, &span, &span, None);
    assert_eq!(t.value, "]x[");
    assert_eq!(t.position, Position { start: 0, end: 3 });
    let all = "{[]}";
    let span = Pair { rule: Rule::ParamType, start: 0, end: 4, inner: Vec::new() };
    let t = TextNode::without_brackets(all, &span, &span, None);
    assert_eq!(t.value, "");
    assert_eq!(t.position, Position { start: 2, end: 2 });
}

#[test]
fn ast_container_operations() {
    let mut ast = LiquidAST::new();
    assert_eq!(ast.len(), 0);
    let t = TextNode::new("a".to_string(), Position { start: 0, end: 1 }, "a".to_string());
    ast.add_node(LiquidNode::TextNode(t));
    let t2 = TextNode::new("b".to_string(), Position { start: 1, end: 2 }, "b".to_string());
    ast.add_node(LiquidNode::TextNode(t2));
    assert_eq!(ast.len(), 2);
    assert_eq!(ast.head().as_text_node_unsafe().value, "a");
    assert_eq!(ast.nodes[1].as_text_node_unsafe().value, "b");
}
