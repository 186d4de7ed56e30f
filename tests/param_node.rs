use liquid_doc_parser::{
    parse_liquid_string, LiquidDocParamNameNode, LiquidDocParamNode, LiquidNode, Pair, Position,
    Rule,
};

fn only_param(input: &str, offset: Option<usize>) -> LiquidDocParamNode {
    let ast = parse_liquid_string(input, offset).expect("the input parses");
    assert_eq!(ast.len(), 1);
    match ast.head() {
        LiquidNode::LiquidDocParamNode(p) => p,
        _ => panic!("Expected a LiquidDocParamNode"),
    }
}

fn params(input: &str, offset: Option<usize>) -> Vec<LiquidDocParamNode> {
    let ast = parse_liquid_string(input, offset).expect("the input parses");
    ast.nodes
        .into_iter()
        .map(|n| match n {
            LiquidNode::LiquidDocParamNode(p) => p,
            _ => panic!("Expected a LiquidDocParamNode"),
        })
        .collect()
}

#[test]
fn doc_param_node_test_parse_param_with_type() {
    let input = "@param {sometype} requiredParamWithNoType";
    let result = parse_liquid_string(input, Some(10));

    assert!(result.is_some());
    let node = result.unwrap().head();

    if let LiquidNode::LiquidDocParamNode(param_node) = node {
        assert_eq!(param_node.param_name.as_str(), "requiredParamWithNoType");
        assert!(param_node.param_description.is_none());
        assert!(param_node.param_type.is_some());
        assert_eq!(param_node.param_type.unwrap().as_str(), "sometype");
        assert!(param_node.required);
    } else {
        panic!("Expected a LiquidDocParamNode");
    }
}

#[test]
fn doc_param_node_test_parse_param_with_type_and_description() {
    let input = "@param {sometype} requiredParamWithNoType - This is a cool parameter";
    let result = parse_liquid_string(input, Some(10));

    assert!(result.is_some());
    let node = result.unwrap().head();
    if let LiquidNode::LiquidDocParamNode(param_node) = node {
        assert_eq!(param_node.param_name.as_str(), "requiredParamWithNoType");
        assert_eq!(
            param_node.param_description.unwrap().as_str(),
            "This is a cool parameter"
        );
    } else {
        panic!("Expected a LiquidDocParamNode");
    }
}

#[test]
fn doc_param_node_test_parse_optional_param_with_type_and_description() {
    let input =
        "@param {sometype} [optionalParamWithTypeAndDescription] - This is a cool parameter";
    let result = parse_liquid_string(input, Some(10));

    assert!(result.is_some());
    let node = result.unwrap().head();
    if let LiquidNode::LiquidDocParamNode(param_node) = node {
        assert_eq!(
            param_node.param_name.as_str(),
            "optionalParamWithTypeAndDescription"
        );
        assert_eq!(
            param_node.param_description.unwrap().as_str(),
            "This is a cool parameter"
        );
        // Brackets around the name make the parameter optional.
        assert!(!param_node.required)
    } else {
        panic!("Expected a LiquidDocParamNode");
    }
}

#[test]
fn doc_param_node_test_serialization_round_trip() {
    let input = "@param {sometype} requiredParamWithSomeType - This is a cool parameter";
    let p = only_param(input, Some(10));
    assert_eq!(p.name, "param");
    assert_eq!(p.position, Position { start: 10, end: 80 });
    assert_eq!(p.source, input);
    assert!(p.required);
    let ty = p.param_type.unwrap();
    assert_eq!(ty.value, "sometype");
    assert_eq!(ty.position, Position { start: 18, end: 26 });
    assert_eq!(ty.source, input);
    assert_eq!(p.param_name.value, "requiredParamWithSomeType");
    assert_eq!(p.param_name.position, Position { start: 28, end: 53 });
    assert_eq!(p.param_name.source, input);
    let desc = p.param_description.unwrap();
    assert_eq!(desc.value, "This is a cool parameter");
    assert_eq!(desc.position, Position { start: 56, end: 80 });
    assert_eq!(desc.source, input);
}

#[test]
fn complex_example_with_many_params() {
    let input = "@param requiredParamWithNoType
@param {String} paramWithDescription - param with description and `punctation`. This is still a valid param description.
@param {String} paramWithNoDescription
@param {String} [optionalParameterWithTypeAndDescription] - optional parameter with type and description
@param [optionalParameterWithDescription] - optional parameter description
@param {String} [optionalParameterWithType]";
    let ps = params(input, Some(10));
    assert_eq!(ps.len(), 6);

    assert_eq!(ps[0].position, Position { start: 10, end: 41 });
    assert_eq!(ps[0].source, "@param requiredParamWithNoType\n");
    assert!(ps[0].param_type.is_none());
    assert_eq!(ps[0].param_name.value, "requiredParamWithNoType");
    assert_eq!(ps[0].param_name.position, Position { start: 17, end: 40 });
    assert!(ps[0].required);
    assert!(ps[0].param_description.is_none());

    assert_eq!(ps[1].position, Position { start: 41, end: 162 });
    let t1 = ps[1].param_type.as_ref().unwrap();
    assert_eq!(t1.value, "String");
    assert_eq!(t1.position, Position { start: 49, end: 55 });
    assert_eq!(ps[1].param_name.value, "paramWithDescription");
    assert_eq!(ps[1].param_name.position, Position { start: 57, end: 77 });
    assert!(ps[1].required);
    let d1 = ps[1].param_description.as_ref().unwrap();
    assert_eq!(
        d1.value,
        "param with description and `punctation`. This is still a valid param description."
    );
    assert_eq!(d1.position, Position { start: 80, end: 161 });

    assert_eq!(ps[2].position, Position { start: 162, end: 201 });
    assert_eq!(ps[2].param_type.as_ref().unwrap().position, Position { start: 170, end: 176 });
    assert_eq!(ps[2].param_name.value, "paramWithNoDescription");
    assert_eq!(ps[2].param_name.position, Position { start: 178, end: 200 });
    assert!(ps[2].required);
    assert!(ps[2].param_description.is_none());

    assert_eq!(ps[3].position, Position { start: 201, end: 306 });
    assert_eq!(ps[3].param_type.as_ref().unwrap().position, Position { start: 209, end: 215 });
    assert_eq!(ps[3].param_name.value, "optionalParameterWithTypeAndDescription");
    assert_eq!(ps[3].param_name.position, Position { start: 218, end: 257 });
    assert!(!ps[3].required);
    let d3 = ps[3].param_description.as_ref().unwrap();
    assert_eq!(d3.value, "optional parameter with type and description");
    assert_eq!(d3.position, Position { start: 261, end: 305 });

    assert_eq!(ps[4].position, Position { start: 306, end: 381 });
    assert!(ps[4].param_type.is_none());
    assert_eq!(ps[4].param_name.value, "optionalParameterWithDescription");
    assert_eq!(ps[4].param_name.position, Position { start: 314, end: 346 });
    assert!(!ps[4].required);
    let d4 = ps[4].param_description.as_ref().unwrap();
    assert_eq!(d4.value, "optional parameter description");
    assert_eq!(d4.position, Position { start: 350, end: 380 });

    assert_eq!(ps[5].position, Position { start: 381, end: 424 });
    assert_eq!(ps[5].param_type.as_ref().unwrap().value, "String");
    assert_eq!(ps[5].param_type.as_ref().unwrap().position, Position { start: 389, end: 395 });
    assert_eq!(ps[5].param_name.value, "optionalParameterWithType");
    assert_eq!(ps[5].param_name.position, Position { start: 398, end: 423 });
    assert!(!ps[5].required);
    assert!(ps[5].param_description.is_none());
}

#[test]
fn scenario_required_param_with_type() {
    let p = only_param("@param {sometype} requiredParamWithNoType", Some(10));
    assert_eq!(p.param_type.as_ref().unwrap().value, "sometype");
    assert_eq!(p.param_name.value, "requiredParamWithNoType");
    assert!(p.param_description.is_none());
    assert!(p.required);
}

#[test]
fn scenario_optional_param_with_type_and_description() {
    let p = only_param(
        "@param {sometype} [optionalParamWithTypeAndDescription] - This is a cool parameter",
        Some(10),
    );
    assert_eq!(p.param_name.value, "optionalParamWithTypeAndDescription");
    assert!(!p.required);
    assert_eq!(p.param_description.as_ref().unwrap().value, "This is a cool parameter");
    // Both brackets are cut off, and the span shrinks by one byte at each end.
    assert_eq!(p.param_name.position, Position { start: 29, end: 64 });
}

#[test]
fn bare_and_bracketed_names() {
    let bare = only_param("@param name", None);
    assert!(bare.required);
    assert_eq!(bare.param_name.value, "name");
    assert_eq!(bare.param_name.position, Position { start: 7, end: 11 });

    let bracketed = only_param("@param [name]", None);
    assert!(!bracketed.required);
    assert_eq!(bracketed.param_name.value, "name");
    assert_eq!(bracketed.param_name.position, Position { start: 8, end: 12 });
}

#[test]
fn braces_are_cut_from_both_ends_of_the_type() {
    let p = only_param("@param {sometype} name", None);
    let ty = p.param_type.unwrap();
    assert_eq!(ty.value, "sometype");
    assert_eq!(ty.position, Position { start: 8, end: 16 });
    assert_eq!(ty.position.end - ty.position.start, ty.value.len());
}

#[test]
fn empty_description_after_dash_is_dropped() {
    let p = only_param("@param {T} name -   ", None);
    assert!(p.param_description.is_none());
    assert_eq!(p.position, Position { start: 0, end: 20 });
}

#[test]
fn description_runs_over_lines_until_next_tag() {
    let ast = parse_liquid_string("@param a - line one\nline two\n@example x", None).unwrap();
    assert_eq!(ast.len(), 2);
    match &ast.nodes[0] {
        LiquidNode::LiquidDocParamNode(p) => {
            let d = p.param_description.as_ref().unwrap();
            assert_eq!(d.value, "line one\nline two");
            assert_eq!(d.position, Position { start: 11, end: 28 });
            assert_eq!(p.position, Position { start: 0, end: 29 });
        }
        _ => panic!("Expected a LiquidDocParamNode"),
    }
}

#[test]
fn positions_count_bytes_of_non_ascii_text() {
    let p = only_param("@param {tÿpe} [nâme] - désc", None);
    let ty = p.param_type.unwrap();
    assert_eq!(ty.value, "tÿpe");
    assert_eq!(ty.position, Position { start: 8, end: 13 });
    assert_eq!(p.param_name.value, "nâme");
    assert_eq!(p.param_name.position, Position { start: 16, end: 21 });
    assert!(!p.required);
    let d = p.param_description.unwrap();
    assert_eq!(d.value, "désc");
    assert_eq!(d.position, Position { start: 25, end: 30 });
}

#[test]
fn param_name_node_from_a_pair() {
    let input = "@param [opt] x";
    let pair = Pair { rule: Rule::ParamName, start: 7, end: 12, inner: Vec::new() };
    let n = LiquidDocParamNameNode::new(input, &pair);
    assert_eq!(n.content.value, "[opt]");
    assert_eq!(n.content.position, Position { start: 7, end: 12 });
    assert_eq!((n.loc_start, n.loc_end), (7, 12));
    assert_eq!(n.source, "[opt]");
    assert!(!n.required);
    let bare = Pair { rule: Rule::ParamName, start: 13, end: 14, inner: Vec::new() };
    assert!(LiquidDocParamNameNode::new(input, &bare).required);
}
