use verilib_structure::blueprint::parse_attributes;
use verilib_structure::blueprint::parse_edge_element;
use verilib_structure::blueprint::parse_node_element;
use verilib_structure::blueprint::BlueprintNode;
use verilib_structure::dep_graph::build_dep_graph;
use verilib_structure::dep_graph::parse_element;
use verilib_structure::dep_graph::Element;
use verilib_structure::dep_graph::GraphError;
use verilib_structure::html::generate_blueprint_json;
use verilib_structure::html::get_dep_graph;
use verilib_structure::html::get_dep_graph_string;
use verilib_structure::html::get_node_info;
use verilib_structure::html::pick_dep_graph_string;
use verilib_structure::html::read_blueprint;
use verilib_structure::html::BlueprintError;
use verilib_structure::html::ModalDiv;
use verilib_structure::name_map::NameMap;
use verilib_structure::name_set::NameSet;
use verilib_structure::statements::blueprint_to_structure;
use verilib_structure::statements::get_blueprint_verification_results;
use verilib_structure::statements::get_statement_names;
use verilib_structure::statements::populate_blueprint_files_metadata;
use verilib_structure::statements::populate_blueprint_json_metadata;
use verilib_structure::statements::statement_metadata;
use verilib_structure::statements::Statement;
use verilib_structure::statements::StatementMeta;

fn texts(pairs: &[(&str, &str)]) -> NameMap<String> {
    let mut m = NameMap::new();
    for (k, v) in pairs {
        m.insert(k.to_string(), v.to_string());
    }
    m
}

fn names(list: &[&str]) -> Vec<String> {
    list.iter().map(|s| s.to_string()).collect()
}

fn node(kind: &str, content: &str, type_status: &str, term_status: &str) -> BlueprintNode {
    BlueprintNode {
        kind: kind.to_string(),
        content: content.to_string(),
        type_status: type_status.to_string(),
        term_status: term_status.to_string(),
        type_dependencies: Vec::new(),
        term_dependencies: Vec::new(),
    }
}

#[test]
fn attributes_of_a_list() {
    assert_eq!(
        parse_attributes("[color=red, shape=box]"),
        texts(&[("color", "red"), ("shape", "box")])
    );
    assert_eq!(
        parse_attributes("[ label = \"a b\" ,fillcolor='#9CEC8B']"),
        texts(&[("label", "a b"), ("fillcolor", "#9CEC8B")])
    );
}

#[test]
fn attributes_edge_cases() {
    assert_eq!(parse_attributes(""), NameMap::new());
    assert_eq!(parse_attributes("[]"), NameMap::new());
    assert_eq!(parse_attributes("[a]"), NameMap::new());
    assert_eq!(parse_attributes("[a=1, a=2]"), texts(&[("a", "2")]));
    assert_eq!(parse_attributes("[a=b=c]"), texts(&[("a", "b=c")]));
    assert_eq!(parse_attributes("[=x]"), texts(&[("", "x")]));
    assert_eq!(parse_attributes("[a=]"), texts(&[("a", "")]));
    assert_eq!(parse_attributes("a=1,,b=2"), texts(&[("a", "1"), ("b", "2")]));
    assert_eq!(parse_attributes("[a=\" x \"]"), texts(&[("a", " x ")]));
}

#[test]
fn node_with_all_attributes() {
    let (id, n) =
        parse_node_element("\"thm:main\" [color=green, fillcolor=\"#9CEC8B\", shape=ellipse]")
            .unwrap();
    assert_eq!(id, "thm:main");
    assert_eq!(n, node("theorem", "", "stated", "proved"));
}

#[test]
fn node_statuses() {
    let status = |attrs: &str| {
        let n = parse_node_element(&format!("n [{}]", attrs)).unwrap().1;
        (n.kind, n.type_status, n.term_status)
    };
    let s = |a: &str, b: &str, c: &str| (a.to_string(), b.to_string(), c.to_string());
    assert_eq!(status("shape=box"), s("definition", "unknown", "unknown"));
    assert_eq!(status("color=blue"), s("", "can-state", "unknown"));
    assert_eq!(status("color=\"#FFAA33\""), s("", "not-ready", "unknown"));
    assert_eq!(status("color=darkgreen"), s("", "mathlib", "unknown"));
    assert_eq!(status("color=pink"), s("", "unrecognized", "unknown"));
    assert_eq!(status("fillcolor=\"#B0ECA3\""), s("", "unknown", "defined"));
    assert_eq!(status("fillcolor=\"#A3D6FF\""), s("", "unknown", "can-prove"));
    assert_eq!(status("fillcolor=\"#1CAC78\""), s("", "unknown", "fully-proved"));
    assert_eq!(status("fillcolor=white"), s("", "unknown", "unrecognized"));
    assert_eq!(status(""), s("", "unknown", "unknown"));
}

#[test]
fn node_that_is_none() {
    assert_eq!(parse_node_element("n [shape=diamond]"), None);
    assert_eq!(parse_node_element("no brackets"), None);
    assert_eq!(parse_node_element("n [shape=box"), None);
    assert_eq!(parse_node_element("n ] [shape=box"), None);
}

#[test]
fn edge_with_and_without_attributes() {
    let e = parse_edge_element("a -> b").unwrap();
    assert_eq!((e.source.as_str(), e.target.as_str()), ("a", "b"));
    assert_eq!(e.attributes, NameMap::new());
    let e = parse_edge_element("\"thm:a\" -> \"def:b\" [style=dashed]").unwrap();
    assert_eq!((e.source.as_str(), e.target.as_str()), ("thm:a", "def:b"));
    assert_eq!(e.attributes, texts(&[("style", "dashed")]));
    let e = parse_edge_element("a->b[color=red, style=dashed]").unwrap();
    assert_eq!((e.source.as_str(), e.target.as_str()), ("a", "b"));
    assert_eq!(e.attributes, texts(&[("color", "red"), ("style", "dashed")]));
}

#[test]
fn edge_edge_cases() {
    assert_eq!(parse_edge_element("a - b"), None);
    let e = parse_edge_element("->").unwrap();
    assert_eq!((e.source.as_str(), e.target.as_str()), ("", ""));
    let e = parse_edge_element("a -> b -> c").unwrap();
    assert_eq!((e.source.as_str(), e.target.as_str()), ("a", "b -> c"));
    let e = parse_edge_element("a -> b [style=dashed").unwrap();
    assert_eq!(e.target, "b");
    assert_eq!(e.attributes, texts(&[("style", "dashed")]));
    let e = parse_edge_element("a -> b ] [x=1").unwrap();
    assert_eq!(e.target, "b ]");
    assert_eq!(e.attributes, texts(&[("x", "1")]));
}

#[test]
fn elements_of_a_drawing() {
    assert_eq!(parse_element("  "), Element::Skipped);
    assert_eq!(parse_element(" graph [bgcolor=white] "), Element::Skipped);
    assert_eq!(parse_element("node [penwidth=1.8]"), Element::Skipped);
    assert_eq!(parse_element("edge [arrowhead=vee]"), Element::Skipped);
    assert_eq!(parse_element("lonely"), Element::Skipped);
    assert_eq!(parse_element("n [shape=star]"), Element::Skipped);
    assert_eq!(
        parse_element("\n\tn [shape=box]"),
        Element::Node("n".to_string(), node("definition", "", "unknown", "unknown"))
    );
    match parse_element(" a -> b [style=dashed] ") {
        Element::Edge(e) => assert_eq!(e.target, "b"),
        other => panic!("{:?}", other),
    }
}

const DOT: &str = "strict digraph \"\" {\n\tgraph [bgcolor=transparent];\n\tnode [penwidth=1.8];\n\tedge [arrowhead=vee];\n\t\"def:a\"\t[color=green, fillcolor=\"#B0ECA3\", label=a, shape=box];\n\t\"thm:b\"\t[color=blue, label=b, shape=ellipse];\n\t\"thm:c\"\t[color=green, fillcolor=\"#9CEC8B\", shape=ellipse];\n\t\"thm:b\" -> \"def:a\"\t[style=dashed];\n\t\"thm:c\" -> \"thm:b\";\n\t\"thm:c\" -> \"def:a\"\t[style=dashed];\n\t\"thm:c\" -> \"def:a\";\n}\n";

#[test]
fn graph_of_a_drawing() {
    let info = texts(&[("def:a", "<p>A</p>"), ("thm:c", "<p>C</p>")]);
    let graph = build_dep_graph(DOT, &info).unwrap();
    assert_eq!(graph.len(), 3);
    let a = graph.get("def:a").unwrap();
    assert_eq!(a, &node("definition", "<p>A</p>", "stated", "defined"));
    let b = graph.get("thm:b").unwrap();
    assert_eq!(b.kind, "theorem");
    assert_eq!(b.content, "");
    assert_eq!(b.type_status, "can-state");
    assert_eq!(b.term_status, "unknown");
    assert_eq!(b.type_dependencies, names(&["def:a"]));
    assert_eq!(b.term_dependencies, names(&[]));
    let c = graph.get("thm:c").unwrap();
    assert_eq!(c.content, "<p>C</p>");
    assert_eq!(c.type_dependencies, names(&["def:a"]));
    assert_eq!(c.term_dependencies, names(&["thm:b", "def:a"]));
}

#[test]
fn graph_errors() {
    let none = NameMap::new();
    assert_eq!(build_dep_graph("digraph {}", &none), Err(GraphError::BadHeader));
    assert_eq!(build_dep_graph("strict digraph \"\" {", &none), Err(GraphError::NoClosingBrace));
    assert_eq!(
        build_dep_graph(DOT, &texts(&[("thm:zz", ""), ("thm:x", ""), ("def:a", "")])),
        Err(GraphError::UnknownNode("thm:x".to_string()))
    );
    assert_eq!(
        build_dep_graph("strict digraph \"\" {a [shape=box]; a -> b; c -> a}", &none),
        Err(GraphError::DanglingEdge("a".to_string(), "b".to_string()))
    );
    assert_eq!(
        build_dep_graph("strict digraph \"\" {a [shape=box]; c -> a}", &none),
        Err(GraphError::DanglingEdge("c".to_string(), "a".to_string()))
    );
    assert_eq!(
        build_dep_graph("strict digraph \"\" {a -> a}", &texts(&[("q", "")])),
        Err(GraphError::UnknownNode("q".to_string()))
    );
}

#[test]
fn graph_without_elements() {
    let graph = build_dep_graph("strict digraph \"\" {}", &NameMap::new()).unwrap();
    assert_eq!(graph.len(), 0);
    let graph = build_dep_graph("strict digraph \"\" {a [shape=box]; a -> a}", &NameMap::new());
    assert_eq!(graph.unwrap().get("a").unwrap().term_dependencies, names(&["a"]));
}

#[test]
fn later_node_of_one_name_counts() {
    let graph =
        build_dep_graph("strict digraph \"\" {a [shape=box]; a [shape=ellipse]}", &NameMap::new())
            .unwrap();
    assert_eq!(graph.get("a").unwrap().kind, "theorem");
}

const PAGE: &str = "<html><body>\n<div class=\"dep-modal-container\" id=\"def:a_modal\"><div class=\"modal-content\"><p>A</p></div></div>\n<div class=\"dep-modal-container\" id=\"thm:b_modal\">\n  <div>B</div>\n</div>\n<div class=\"other\" id=\"x_modal\"><p>no</p></div>\n<script>\nd3.select(\"#graph\").graphviz().renderDot(`digraph other {}`);\nd3.select(\"#graph\").graphviz().renderDot(`strict digraph \"\" {\n\"def:a\" [shape=box];\n\"thm:b\" [shape=ellipse, fillcolor=\"#9CEC8B\"];\n\"thm:b\" -> \"def:a\";\n}`);\n</script></body></html>";

#[test]
fn drawing_in_a_page() {
    let dot = get_dep_graph_string(PAGE).unwrap();
    assert!(dot.starts_with("strict digraph \"\" {"));
    assert!(dot.ends_with("}"));
    assert_eq!(get_dep_graph_string("<html>nothing</html>"), None);
    assert_eq!(get_dep_graph_string(".renderDot(`digraph {}`)"), None);
    assert_eq!(
        get_dep_graph_string("x.renderDot(`strict digraph a`) y.renderDot(`strict digraph b`)"),
        Some("strict digraph a".to_string())
    );
    assert_eq!(get_dep_graph_string(".renderDot(`strict digraph` )"), None);
}

#[test]
fn picking_among_arguments() {
    let some = |s: &str| Some(s.to_string());
    assert_eq!(pick_dep_graph_string(&vec![some("a"), some("strict digraph x")]), some("strict digraph x"));
    assert_eq!(pick_dep_graph_string(&vec![some("a"), None, some("strict digraph x")]), None);
    assert_eq!(pick_dep_graph_string(&vec![some("strict digraph x"), None]), some("strict digraph x"));
    assert_eq!(pick_dep_graph_string(&Vec::new()), None);
}

#[test]
fn texts_of_the_statements() {
    let div = |id: Option<&str>, children: &[bool], html: &str| ModalDiv {
        id: id.map(|s| s.to_string()),
        children: children.to_vec(),
        inner_html: html.to_string(),
    };
    assert_eq!(
        get_node_info(&vec![
            div(Some("a_modal"), &[false, true, false], "<p>A</p>"),
            div(None, &[], "ignored"),
            div(Some("b_modal_modal"), &[true], "B"),
        ]),
        Ok(texts(&[("a", "<p>A</p>"), ("b_modal", "B")]))
    );
    assert_eq!(get_node_info(&vec![div(Some("a_modal"), &[], "")]), Err(BlueprintError::ChildCount(0)));
    assert_eq!(
        get_node_info(&vec![div(Some("a_modal"), &[true, true], "")]),
        Err(BlueprintError::ChildCount(2))
    );
    assert_eq!(
        get_node_info(&vec![div(Some("a"), &[true], ""), div(Some("b_modal"), &[], "")]),
        Err(BlueprintError::BadModalId("a".to_string()))
    );
    assert_eq!(get_node_info(&vec![div(Some("_modal"), &[true], "x")]), Ok(texts(&[("", "x")])));
    assert_eq!(get_node_info(&Vec::new()), Ok(NameMap::new()));
}

#[test]
fn blueprint_of_a_page() {
    let graph = generate_blueprint_json(PAGE).unwrap();
    assert_eq!(graph.len(), 2);
    let a = graph.get("def:a").unwrap();
    assert_eq!(a.kind, "definition");
    assert_eq!(a.content, "<div class=\"modal-content\"><p>A</p></div>");
    let b = graph.get("thm:b").unwrap();
    assert_eq!(b.term_status, "proved");
    assert_eq!(b.content, "\n  <div>B</div>\n");
    assert_eq!(b.term_dependencies, names(&["def:a"]));
}

#[test]
fn blueprint_with_another_selector() {
    let graph = read_blueprint(PAGE, "div.other").unwrap_err();
    assert_eq!(graph, BlueprintError::Graph(GraphError::UnknownNode("x".to_string())));
    assert_eq!(read_blueprint(PAGE, "div["), Err(BlueprintError::BadSelector));
    assert_eq!(read_blueprint(PAGE, "p.none").unwrap().len(), 2);
}

#[test]
fn blueprint_of_a_page_without_drawing() {
    assert_eq!(generate_blueprint_json("<html></html>"), Err(BlueprintError::NoGraph));
    assert_eq!(get_dep_graph("<html></html>", &NameMap::new()), Err(BlueprintError::NoGraph));
    assert_eq!(
        get_dep_graph(".renderDot(`strict digraph x`)", &NameMap::new()),
        Err(BlueprintError::Graph(GraphError::BadHeader))
    );
    assert_eq!(
        generate_blueprint_json("<div class=\"dep-modal-container\" id=\"a_modal\">text</div>"),
        Err(BlueprintError::ChildCount(0))
    );
}

fn small_blueprint() -> NameMap<BlueprintNode> {
    let mut a = node("definition", "<p>A</p>", "stated", "defined");
    a.type_dependencies = Vec::new();
    let mut b = node("theorem", "<p>B</p>", "stated", "proved");
    b.type_dependencies = names(&["def:a"]);
    b.term_dependencies = names(&["def:a", "thm:c"]);
    let c = node("theorem", "", "can-state", "can-prove");
    let mut m = NameMap::new();
    m.insert("def:a".to_string(), a);
    m.insert("thm:b".to_string(), b);
    m.insert("thm:c".to_string(), c);
    m
}

#[test]
fn structure_of_a_blueprint() {
    let structure = blueprint_to_structure(&small_blueprint());
    assert_eq!(structure.len(), 3);
    assert_eq!(
        structure.get("thm:b.md"),
        Some(&Statement {
            veri_name: Some("veri:thm:b".to_string()),
            dependencies: names(&["veri:def:a", "veri:def:a", "veri:thm:c"]),
            content: "<p>B</p>".to_string(),
        })
    );
    assert_eq!(structure.get("def:a.md").unwrap().dependencies, names(&[]));
    assert_eq!(
        get_statement_names(&structure).to_names(),
        names(&["veri:def:a", "veri:thm:b", "veri:thm:c"])
    );
}

#[test]
fn metadata_of_statements() {
    let blueprint = small_blueprint();
    let entry = |name: Option<&str>| Statement {
        veri_name: name.map(|s| s.to_string()),
        dependencies: Vec::new(),
        content: String::new(),
    };
    let expected = StatementMeta {
        veri_name: "veri:thm:b".to_string(),
        dependencies: names(&["veri:def:a", "veri:def:a", "veri:thm:c"]),
        visible: true,
        content: "<p>B</p>".to_string(),
    };
    assert_eq!(statement_metadata(&entry(Some("veri:thm:b")), &blueprint), Some(expected.clone()));
    assert_eq!(
        statement_metadata(&entry(Some("thm:b")), &blueprint).unwrap().veri_name,
        "thm:b"
    );
    assert_eq!(statement_metadata(&entry(Some("veri:nope")), &blueprint), None);
    assert_eq!(statement_metadata(&entry(None), &blueprint), None);
    let mut structure = NameMap::new();
    structure.insert("1.md".to_string(), entry(Some("veri:thm:b")));
    structure.insert("2.md".to_string(), entry(None));
    structure.insert("3.md".to_string(), entry(Some("veri:gone")));
    structure.insert("4.md".to_string(), entry(Some("veri:def:a")));
    let report = populate_blueprint_json_metadata(&structure, &blueprint);
    assert_eq!(report.created, 2);
    assert_eq!(report.skipped, 2);
    assert_eq!(report.metadata.len(), 2);
    assert_eq!(report.metadata.get("veri:thm:b"), Some(&expected));
    let files = populate_blueprint_files_metadata(
        &blueprint,
        &vec![entry(None), entry(Some("veri:thm:b"))],
    );
    assert_eq!(files.records, vec![None, Some(expected)]);
    assert_eq!((files.created, files.skipped), (1, 1));
}

#[test]
fn verification_results_of_a_blueprint() {
    let statuses = NameSet::from_names(&names(&["proved", "fully-proved", "defined"]));
    let (verified, failed) = get_blueprint_verification_results(&small_blueprint(), &statuses);
    assert_eq!(verified.to_names(), names(&["veri:def:a", "veri:thm:b"]));
    assert_eq!(failed.to_names(), names(&["veri:thm:c"]));
    let (verified, failed) = get_blueprint_verification_results(&small_blueprint(), &NameSet::new());
    assert_eq!(verified.len(), 0);
    assert_eq!(failed.len(), 3);
}
