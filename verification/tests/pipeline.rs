//! End-to-end tests of the three conversion passes on whole documents.

use graphconv::errors::ConvError;
use graphconv::gml_filter::gml_to_gml_lines;
use graphconv::gml_to_graphml::gml_to_graphml_events;
use graphconv::graphml_to_gml::graphml_to_gml_lines;
use graphconv::xml::XmlEvent;

fn lines(ls: &[&str]) -> Vec<String> {
    ls.iter().map(|s| s.to_string()).collect()
}

fn attrs(ps: &[(&str, &str)]) -> Vec<(String, String)> {
    ps.iter().map(|(k, v)| (k.to_string(), v.to_string())).collect()
}

fn start(name: &str, ps: &[(&str, &str)]) -> XmlEvent {
    XmlEvent::Start { name: name.to_string(), attrs: attrs(ps) }
}

fn empty(name: &str, ps: &[(&str, &str)]) -> XmlEvent {
    XmlEvent::Empty { name: name.to_string(), attrs: attrs(ps) }
}

fn end(name: &str) -> XmlEvent {
    XmlEvent::End { name: name.to_string() }
}

fn text(t: &str) -> XmlEvent {
    XmlEvent::Text { text: t.to_string() }
}

#[test]
fn gml_to_graphml_simple() {
    let input = lines(&[
        "graph [",
        "  directed 1",
        "  # a comment",
        "  node [",
        "    id 1",
        "    label \"alpha\"",
        "  ]",
        "  edge [",
        "    source 1",
        "    target 2",
        "    weight 1.5",
        "  ]",
        "]",
    ]);
    let events = gml_to_graphml_events(&input).unwrap();
    let expected = vec![
        XmlEvent::Decl,
        start(
            "graphml",
            &[
                ("xmlns", "http://graphml.graphdrawing.org/xmlns"),
                ("xmlns:xsi", "http://www.w3.org/2001/XMLSchema-instance"),
                (
                    "xsi:schemaLocation",
                    "http://graphml.graphdrawing.org/xmlns http://graphml.graphdrawing.org/xmlns/1.0/graphml.xsd",
                ),
            ],
        ),
        empty(
            "key",
            &[("id", "d0"), ("for", "node"), ("attr.name", "label"), ("attr.type", "string")],
        ),
        empty(
            "key",
            &[("id", "d1"), ("for", "edge"), ("attr.name", "weight"), ("attr.type", "float")],
        ),
        start("graph", &[("edgedefault", "directed")]),
        start("node", &[("id", "n1")]),
        start("data", &[("key", "d0")]),
        text("alpha"),
        end("data"),
        end("node"),
        start("edge", &[("source", "n1"), ("target", "n2")]),
        start("data", &[("key", "d1")]),
        text("1.5"),
        end("data"),
        end("edge"),
        end("graph"),
        end("graphml"),
    ];
    assert_eq!(events, expected);
}

#[test]
fn repeated_key_becomes_list() {
    let input = lines(&[
        "graph [",
        "  node [",
        "    id 1",
        "    weight 1",
        "    weight 2",
        "  ]",
        "]",
    ]);
    let events = gml_to_graphml_events(&input).unwrap();
    // the repeated name yields one data element carrying both values
    assert!(events.contains(&text("[1,2]")));
    assert!(!events.contains(&text("1")));
    // and the repetition widened the key's type to string
    assert!(events.contains(&empty(
        "key",
        &[("id", "d0"), ("for", "node"), ("attr.name", "weight"), ("attr.type", "string")],
    )));
}

#[test]
fn dict_block_crosses_as_encoded_string() {
    let input = lines(&[
        "graph [",
        "  node [",
        "    id 1",
        "    meta [",
        "      a 1",
        "      b 2",
        "    ]",
        "  ]",
        "]",
    ]);
    let events = gml_to_graphml_events(&input).unwrap();
    assert!(events.contains(&text("{\"a\":1,\"b\":2}")));
    assert!(events.contains(&empty(
        "key",
        &[("id", "d0"), ("for", "node"), ("attr.name", "meta"), ("attr.type", "string")],
    )));
}

#[test]
fn dict_survives_the_round_trip() {
    let input = lines(&[
        "graph [",
        "  node [",
        "    id 1",
        "    meta [",
        "      a 1",
        "      b 2",
        "    ]",
        "  ]",
        "]",
    ]);
    let events = gml_to_graphml_events(&input).unwrap();
    let back = graphml_to_gml_lines(&events).unwrap();
    assert_eq!(
        back,
        lines(&[
            "graph [",
            "  directed 0",
            "  node [",
            "    id 1",
            "    meta [",
            "        a 1",
            "        b 2",
            "    ]",
            "  ]",
            "]",
        ])
    );
}

#[test]
fn empty_graph_still_gets_header() {
    let input = lines(&["graph [", "  directed 0", "]"]);
    let events = gml_to_graphml_events(&input).unwrap();
    assert!(events.contains(&start("graph", &[("edgedefault", "undirected")])));
}

#[test]
fn malformed_data_line_is_reported_with_its_number() {
    let input = lines(&["graph [", "oops", "]"]);
    assert_eq!(gml_to_graphml_events(&input), Err(ConvError::Parse { pos: 2 }));
}

#[test]
fn unclosed_block_at_end_of_input_is_an_error() {
    let input = lines(&["graph [", "  node [", "    id 1"]);
    assert_eq!(gml_to_graphml_events(&input), Err(ConvError::Parse { pos: 3 }));
}

#[test]
fn graphml_to_gml_simple() {
    let events = vec![
        XmlEvent::Decl,
        empty(
            "key",
            &[("id", "d0"), ("for", "node"), ("attr.name", "label"), ("attr.type", "string")],
        ),
        start("graphml", &[]),
        start("graph", &[("edgedefault", "directed")]),
        start("node", &[("id", "n1")]),
        start("data", &[("key", "d0")]),
        text("alpha"),
        end("data"),
        end("node"),
        start("edge", &[("source", "n1"), ("target", "n2")]),
        end("edge"),
        end("graph"),
    ];
    let out = graphml_to_gml_lines(&events).unwrap();
    assert_eq!(
        out,
        lines(&[
            "graph [",
            "  directed 1",
            "  node [",
            "    id 1",
            "    label \"alpha\"",
            "  ]",
            "  edge [",
            "    source 1",
            "    target 2",
            "  ]",
            "]",
        ])
    );
}

#[test]
fn missing_edgedefault_writes_directed_zero() {
    let events = vec![start("graph", &[]), end("graph")];
    let out = graphml_to_gml_lines(&events).unwrap();
    assert_eq!(out, lines(&["graph [", "  directed 0", "]"]));
}

#[test]
fn empty_data_value_is_elided() {
    let events = vec![
        empty(
            "key",
            &[("id", "d0"), ("for", "node"), ("attr.name", "x"), ("attr.type", "string")],
        ),
        start("graph", &[]),
        start("node", &[("id", "n1")]),
        start("data", &[("key", "d0")]),
        text(""),
        end("data"),
        start("data", &[("key", "d0")]),
        text("\"\""),
        end("data"),
        end("node"),
        end("graph"),
    ];
    let out = graphml_to_gml_lines(&events).unwrap();
    assert_eq!(out, lines(&["graph [", "  directed 0", "  node [", "    id 1", "  ]", "]"]));
}

#[test]
fn int_shaped_float_value_gains_a_decimal() {
    let events = vec![
        empty(
            "key",
            &[("id", "d0"), ("for", "node"), ("attr.name", "w"), ("attr.type", "float")],
        ),
        start("graph", &[]),
        start("node", &[("id", "n1")]),
        start("data", &[("key", "d0")]),
        text("1"),
        end("data"),
        end("node"),
        end("graph"),
    ];
    let out = graphml_to_gml_lines(&events).unwrap();
    assert!(out.contains(&"    w 1.0".to_string()));
}

#[test]
fn non_numeric_float_value_is_a_type_mismatch() {
    let events = vec![
        empty(
            "key",
            &[("id", "d0"), ("for", "node"), ("attr.name", "w"), ("attr.type", "float")],
        ),
        start("graph", &[]),
        start("node", &[("id", "n1")]),
        start("data", &[("key", "d0")]),
        text("abc"),
    ];
    assert_eq!(graphml_to_gml_lines(&events), Err(ConvError::TypeMismatch { pos: 5 }));
}

#[test]
fn unknown_start_tag_is_unsupported() {
    let events = vec![start("graph", &[]), start("port", &[])];
    assert_eq!(graphml_to_gml_lines(&events), Err(ConvError::UnsupportedTag { pos: 2 }));
}

#[test]
fn undeclared_data_key_is_not_found() {
    let events = vec![
        start("graph", &[]),
        start("node", &[("id", "n1")]),
        start("data", &[("key", "d9")]),
        text("x"),
    ];
    assert_eq!(graphml_to_gml_lines(&events), Err(ConvError::KeyNotFound { pos: 4 }));
}

#[test]
fn encoded_list_value_unfolds_on_the_way_back() {
    let events = vec![
        empty(
            "key",
            &[("id", "d0"), ("for", "node"), ("attr.name", "ws"), ("attr.type", "string")],
        ),
        start("graph", &[]),
        start("node", &[("id", "n1")]),
        start("data", &[("key", "d0")]),
        text("[1,2]"),
        end("data"),
        end("node"),
        end("graph"),
    ];
    let out = graphml_to_gml_lines(&events).unwrap();
    assert!(out.contains(&"    ws 1".to_string()));
    assert!(out.contains(&"    ws 2".to_string()));
}

#[test]
fn filter_drops_empty_and_nan_values() {
    let input = lines(&["graph [", "x NaN", "y \"\"", "z 1", "]"]);
    let out = gml_to_gml_lines(&input).unwrap();
    assert_eq!(out, lines(&["graph [", "z 1", "]"]));
}

#[test]
fn filter_unfolds_quoted_dict_values() {
    let input = lines(&["graph [", "meta \"{\"a\":1,\"b\":2}\"", "]"]);
    let out = gml_to_gml_lines(&input).unwrap();
    assert_eq!(
        out,
        lines(&["graph [", "    meta [", "      a 1", "      b 2", "    ]", "]"])
    );
}

fn node_count(events: &Vec<XmlEvent>) -> usize {
    events.iter().filter(|e| matches!(e, XmlEvent::Start { name, .. } if name == "node")).count()
}

fn edge_count(events: &Vec<XmlEvent>) -> usize {
    events.iter().filter(|e| matches!(e, XmlEvent::Start { name, .. } if name == "edge")).count()
}

fn node_ids(events: &Vec<XmlEvent>) -> Vec<String> {
    let mut ids: Vec<String> = Vec::new();
    for e in events.iter() {
        if let XmlEvent::Start { name, attrs } = e {
            if name == "node" {
                for (k, v) in attrs.iter() {
                    if k == "id" {
                        ids.push(v.clone());
                    }
                }
            }
        }
    }
    ids.sort();
    ids
}

fn attr_names(events: &Vec<XmlEvent>) -> Vec<String> {
    let mut names: Vec<String> = Vec::new();
    for e in events.iter() {
        if let XmlEvent::Empty { name, attrs } = e {
            if name == "key" {
                for (k, v) in attrs.iter() {
                    if k == "attr.name" {
                        names.push(v.clone());
                    }
                }
            }
        }
    }
    names.sort();
    names.dedup();
    names
}

#[test]
fn alternating_conversions_are_stable() {
    let input = lines(&[
        "graph [",
        "  directed 1",
        "  node [",
        "    id 1",
        "    label \"alpha\"",
        "    weight 1",
        "    weight 2",
        "  ]",
        "  node [",
        "    id 2",
        "    meta [",
        "      a 1",
        "      b 2",
        "    ]",
        "  ]",
        "  edge [",
        "    source 1",
        "    target 2",
        "    weight 1.5",
        "  ]",
        "]",
    ]);
    let first = gml_to_graphml_events(&input).unwrap();
    let back = graphml_to_gml_lines(&first).unwrap();
    let second = gml_to_graphml_events(&back).unwrap();
    assert_eq!(node_count(&first), node_count(&second));
    assert_eq!(edge_count(&first), edge_count(&second));
    assert_eq!(node_ids(&first), node_ids(&second));
    assert_eq!(attr_names(&first), attr_names(&second));
}

#[test]
fn later_key_declaration_replaces_the_earlier() {
    let events = vec![
        empty(
            "key",
            &[("id", "d0"), ("for", "node"), ("attr.name", "old_name"), ("attr.type", "int")],
        ),
        empty(
            "key",
            &[("id", "d0"), ("for", "node"), ("attr.name", "new_name"), ("attr.type", "string")],
        ),
        start("graph", &[]),
        start("node", &[("id", "n1")]),
        start("data", &[("key", "d0")]),
        text("v"),
        end("data"),
        end("node"),
        end("graph"),
    ];
    let out = graphml_to_gml_lines(&events).unwrap();
    assert!(out.contains(&"    new_name \"v\"".to_string()));
}

#[test]
fn empty_list_value_stays_a_literal() {
    let events = vec![
        empty(
            "key",
            &[("id", "d0"), ("for", "node"), ("attr.name", "ws"), ("attr.type", "string")],
        ),
        start("graph", &[]),
        start("node", &[("id", "n1")]),
        start("data", &[("key", "d0")]),
        text("[]"),
        end("data"),
        end("node"),
        end("graph"),
    ];
    let out = graphml_to_gml_lines(&events).unwrap();
    assert!(out.contains(&"    ws []".to_string()));
}

#[test]
fn graph_attributes_flush_with_the_header() {
    let input = lines(&[
        "graph [",
        "  name \"demo\"",
        "  node [",
        "    id 1",
        "  ]",
        "]",
    ]);
    let events = gml_to_graphml_events(&input).unwrap();
    assert!(events.contains(&empty(
        "key",
        &[("id", "d0"), ("for", "graph"), ("attr.name", "name"), ("attr.type", "string")],
    )));
    let graph_at = events.iter().position(|e| matches!(e, XmlEvent::Start { name, .. } if name == "graph")).unwrap();
    let node_at = events.iter().position(|e| matches!(e, XmlEvent::Start { name, .. } if name == "node")).unwrap();
    assert!(graph_at < node_at);
    assert_eq!(events[graph_at + 1], start("data", &[("key", "d0")]));
    assert_eq!(events[graph_at + 2], text("demo"));
}

#[test]
fn filter_keeps_unsplittable_lines() {
    let input = lines(&["graph [", "]", "", "   "]);
    let out = gml_to_gml_lines(&input).unwrap();
    assert_eq!(out, lines(&["graph [", "]", "", "   "]));
}

#[test]
fn filter_unfolds_spaced_dict_values() {
    let input = lines(&["graph [", "meta \"{\"a\": 1}\"", "]"]);
    let out = gml_to_gml_lines(&input).unwrap();
    assert_eq!(out, lines(&["graph [", "    meta [", "      a 1", "    ]", "]"]));
}

#[test]
fn spaced_encoded_dict_unfolds_on_the_way_back() {
    let events = vec![
        empty(
            "key",
            &[("id", "d0"), ("for", "node"), ("attr.name", "meta"), ("attr.type", "string")],
        ),
        start("graph", &[]),
        start("node", &[("id", "n1")]),
        start("data", &[("key", "d0")]),
        text("{\"a\": 1, \"b\": 2}"),
        end("data"),
        end("node"),
        end("graph"),
    ];
    let out = graphml_to_gml_lines(&events).unwrap();
    assert!(out.contains(&"    meta [".to_string()));
    assert!(out.contains(&"        a 1".to_string()));
    assert!(out.contains(&"        b 2".to_string()));
}

#[test]
fn plus_signed_float_value_drops_its_sign() {
    let events = vec![
        empty(
            "key",
            &[("id", "d0"), ("for", "node"), ("attr.name", "w"), ("attr.type", "float")],
        ),
        start("graph", &[]),
        start("node", &[("id", "n1")]),
        start("data", &[("key", "d0")]),
        text("+5"),
        end("data"),
        end("node"),
        end("graph"),
    ];
    let out = graphml_to_gml_lines(&events).unwrap();
    assert!(out.contains(&"    w 5.0".to_string()));
}
