use liquid_doc_parser::{parse_liquid_string, LiquidNode, Position};

#[test]
fn test_liquid_doc_implicit_description_node() {
    let input = "kdkd\n\n@param {sometype} requiredParamWithSomeType - This is a cool parameter";
    let ast = parse_liquid_string(input, None).unwrap();
    let description_node = match ast.nodes.first() {
        Some(LiquidNode::LiquidDocDescriptionNode(node)) => node,
        _ => panic!("Expected a LiquidDocDescriptionNode"),
    };

    assert_eq!(description_node.name, "description");
    assert!(description_node.is_implicit);
    assert!(description_node.is_inline);
    assert_eq!(description_node.content.value, "kdkd\n\n");
}

#[test]
fn test_liquid_doc_explicit_description_node() {
    let input = "@description kdkd
            @param {sometype} requiredParamWithSomeType - This is a cool parameter";
    let ast = parse_liquid_string(input, None).unwrap();
    let description_node = match ast.nodes.first() {
        Some(LiquidNode::LiquidDocDescriptionNode(node)) => node,
        _ => panic!("Expected a LiquidDocDescriptionNode"),
    };

    assert_eq!(description_node.name, "description");
    assert!(!description_node.is_implicit);
    assert!(description_node.is_inline);
    assert_eq!(description_node.content.value, "kdkd\n");
    // The indented tag that follows starts at its `@`.
    match &ast.nodes[1] {
        LiquidNode::LiquidDocParamNode(p) => assert_eq!(p.position.start, 30),
        _ => panic!("Expected a LiquidDocParamNode"),
    }
}

#[test]
fn description_node_test_serialization_round_trip() {
    let input = "@description kdkd\n";
    let ast = parse_liquid_string(input, Some(10)).unwrap();
    assert_eq!(ast.len(), 1);
    match &ast.nodes[0] {
        LiquidNode::LiquidDocDescriptionNode(d) => {
            assert_eq!(d.content.value, "kdkd\n");
            assert_eq!(d.content.position, Position { start: 23, end: 28 });
            assert_eq!(d.content.source, "@description kdkd\n");
            assert!(!d.is_implicit);
            assert!(d.is_inline);
            assert_eq!(d.position, Position { start: 10, end: 28 });
            assert_eq!(d.source, "@description kdkd\n");
            assert_eq!(d.name, "description");
        }
        _ => panic!("Expected a LiquidDocDescriptionNode"),
    }
}

#[test]
fn test_serialization_round_trip_with_implicit_description() {
    let input = "kdkd

@param {sometype} requiredParamWithSomeType - This is a cool parameter";
    let ast = parse_liquid_string(input, Some(10)).unwrap();
    assert_eq!(ast.len(), 2);
    match &ast.nodes[0] {
        LiquidNode::LiquidDocDescriptionNode(d) => {
            assert_eq!(d.content.value, "kdkd\n\n");
            assert_eq!(d.content.position, Position { start: 10, end: 16 });
            assert_eq!(d.content.source, "kdkd\n\n");
            assert!(d.is_implicit);
            assert!(d.is_inline);
            assert_eq!(d.position, Position { start: 10, end: 16 });
            assert_eq!(d.name, "description");
        }
        _ => panic!("Expected a LiquidDocDescriptionNode"),
    }
    match &ast.nodes[1] {
        LiquidNode::LiquidDocParamNode(p) => {
            assert_eq!(p.name, "param");
            assert_eq!(p.position, Position { start: 16, end: 86 });
            assert!(p.required);
            let ty = p.param_type.as_ref().unwrap();
            assert_eq!(ty.value, "sometype");
            assert_eq!(ty.position, Position { start: 24, end: 32 });
            assert_eq!(p.param_name.value, "requiredParamWithSomeType");
            assert_eq!(p.param_name.position, Position { start: 34, end: 59 });
            let d = p.param_description.as_ref().unwrap();
            assert_eq!(d.value, "This is a cool parameter");
            assert_eq!(d.position, Position { start: 62, end: 86 });
        }
        _ => panic!("Expected a LiquidDocParamNode"),
    }
}

#[test]
fn description_node_test_serialization_round_trip_with_explicit_description() {
    let input = "@description kdkd

@param {sometype} requiredParamWithSomeType - This is a cool parameter";
    let ast = parse_liquid_string(input, Some(10)).unwrap();
    assert_eq!(ast.len(), 2);
    match &ast.nodes[0] {
        LiquidNode::LiquidDocDescriptionNode(d) => {
            assert_eq!(d.content.value, "kdkd\n\n");
            assert_eq!(d.content.position, Position { start: 23, end: 29 });
            assert!(!d.is_implicit);
            assert!(d.is_inline);
            assert_eq!(d.position, Position { start: 10, end: 29 });
            assert_eq!(d.source, "@description kdkd\n\n");
        }
        _ => panic!("Expected a LiquidDocDescriptionNode"),
    }
    match &ast.nodes[1] {
        LiquidNode::LiquidDocParamNode(p) => {
            assert_eq!(p.position, Position { start: 29, end: 99 });
            assert_eq!(p.param_type.as_ref().unwrap().position, Position { start: 37, end: 45 });
            assert_eq!(p.param_name.position, Position { start: 47, end: 72 });
            assert_eq!(p.param_description.as_ref().unwrap().position, Position { start: 75, end: 99 });
        }
        _ => panic!("Expected a LiquidDocParamNode"),
    }
}

#[test]
fn scenario_implicit_description_then_param() {
    let input = "kdkd\n\n@param {sometype} requiredParamWithSomeType - This is a cool parameter";
    let ast = parse_liquid_string(input, Some(10)).unwrap();
    assert_eq!(ast.len(), 2);
    match &ast.nodes[0] {
        LiquidNode::LiquidDocDescriptionNode(d) => {
            assert!(d.is_implicit);
            assert_eq!(d.content.value, "kdkd\n\n");
        }
        _ => panic!("Expected a LiquidDocDescriptionNode"),
    }
    match &ast.nodes[1] {
        LiquidNode::LiquidDocParamNode(p) => {
            assert_eq!(p.param_type.as_ref().unwrap().value, "sometype");
            assert_eq!(p.param_name.value, "requiredParamWithSomeType");
            assert!(p.required);
        }
        _ => panic!("Expected a LiquidDocParamNode"),
    }
}

#[test]
fn empty_descriptions_are_not_kept() {
    assert_eq!(parse_liquid_string("", None).unwrap().len(), 0);
    assert_eq!(parse_liquid_string("@description ", None).unwrap().len(), 0);
    let ast = parse_liquid_string("@param x", Some(3)).unwrap();
    assert_eq!(ast.len(), 1);
    assert!(matches!(ast.head(), LiquidNode::LiquidDocParamNode(_)));
}
