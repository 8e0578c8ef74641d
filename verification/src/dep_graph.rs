//! The dependency graph of a blueprint: its statements, each with the
//! statements it depends on.

use crate::blueprint::BlueprintNode;
use crate::blueprint::Edge;
use crate::blueprint::EdgeView;
use crate::blueprint::NodeView;
use crate::blueprint::attribute;
use crate::blueprint::edge_of;
use crate::blueprint::node_of;
use crate::blueprint::parse_edge_element;
use crate::blueprint::parse_node_element;
use crate::blueprint::texts_view;
use crate::name_map::NameMap;
use crate::name_set::is_least;
use crate::name_set::least_name;
use crate::name_set::lemma_least_unique;
use crate::name_set::names_view;
use crate::scan::CharClass;
use crate::scan::contains_text;
use crate::scan::cut;
use crate::scan::find;
use crate::scan::find_char;
use crate::scan::first_index;
use crate::scan::last_occurrence;
use crate::scan::occurs_at;
use crate::scan::parts;
use crate::scan::pieces_within;
use crate::scan::rfind;
use crate::scan::slice;
use crate::scan::split;
use crate::scan::starts_with;
use crate::scan::trim;
use crate::scan::trimmed;
use crate::text::chars_of;
use crate::text::name_le;
use crate::text::name_lt;
use crate::text::str_eq;
use vstd::prelude::*;
use vstd::string::*;

verus! {

/// Why a drawing of a dependency graph cannot be read.
#[derive(Clone, Debug, PartialEq, Eq)]
pub enum GraphError {
    /// The drawing does not begin with `strict digraph "" {`.
    BadHeader,
    /// The drawing has no closing brace.
    NoClosingBrace,
    /// A statement has a text but no node in the drawing.
    UnknownNode(String),
    /// An edge of the drawing names a source or a target that is no node.
    DanglingEdge(String, String),
}

/// The reason as plain values.
pub enum GraphErrorView {
    BadHeader,
    NoClosingBrace,
    UnknownNode(Seq<char>),
    DanglingEdge(Seq<char>, Seq<char>),
}

impl View for GraphError {
    type V = GraphErrorView;

    open spec fn view(&self) -> GraphErrorView {
        match self {
            GraphError::BadHeader => GraphErrorView::BadHeader,
            GraphError::NoClosingBrace => GraphErrorView::NoClosingBrace,
            GraphError::UnknownNode(id) => GraphErrorView::UnknownNode(id@),
            GraphError::DanglingEdge(s, t) => GraphErrorView::DanglingEdge(s@, t@),
        }
    }
}

/// What one element of a drawing describes.
#[derive(Clone, Debug, PartialEq, Eq)]
pub enum Element {
    /// Nothing that counts: an empty element, a style, or a node of an
    /// unknown shape.
    Skipped,
    /// A statement, with its identifier.
    Node(String, BlueprintNode),
    /// A dependency.
    Edge(Edge),
}

/// An element as plain values.
pub enum ElementView {
    Skipped,
    Node(Seq<char>, NodeView),
    Edge(EdgeView),
}

impl View for Element {
    type V = ElementView;

    open spec fn view(&self) -> ElementView {
        match self {
            Element::Skipped => ElementView::Skipped,
            Element::Node(id, node) => ElementView::Node(id@, node@),
            Element::Edge(edge) => ElementView::Edge(edge@),
        }
    }
}

/// Whether a character stands in a text.
pub open spec fn has_char(s: Seq<char>, c: char) -> bool {
    first_index(s, c) < s.len()
}

/// Whether an element sets a style for the graph, for its nodes or for its
/// edges.
pub open spec fn is_style(e: Seq<char>) -> bool {
    "graph ["@.is_prefix_of(e) || "node ["@.is_prefix_of(e) || "edge ["@.is_prefix_of(e)
}

/// What an element of a drawing describes. White space around the element
/// does not count. An element with square brackets and without `->` is a
/// node; an element with `->` is an edge.
pub open spec fn element_of(piece: Seq<char>) -> ElementView {
    let e = trimmed(piece, CharClass::Space);
    if e.len() == 0 || is_style(e) {
        ElementView::Skipped
    } else if has_char(e, '[') && has_char(e, ']') && !contains_text(e, "->"@) {
        match node_of(e) {
            Some((id, node)) => ElementView::Node(id, node),
            None => ElementView::Skipped,
        }
    } else {
        match edge_of(e) {
            Some(edge) => ElementView::Edge(edge),
            None => ElementView::Skipped,
        }
    }
}

/// Reads one element of a drawing.
pub fn parse_element(piece: &str) -> (r: Element)
    ensures
        r@ == element_of(piece@),
        r matches Element::Edge(edge) ==> edge.attributes.wf(),
{
    let text = chars_of(piece);
    let n = text.len();
    assert(text@.subrange(0, n as int) =~= text@);
    let inner = trim(&text, 0, n, CharClass::Space);
    let element = slice(piece, inner.start, inner.end);
    let e = chars_of(element.as_str());
    let m = e.len();
    assert(e@.subrange(0, m as int) =~= e@);
    if m == 0 {
        return Element::Skipped;
    }
    let graph_style = chars_of("graph [");
    let node_style = chars_of("node [");
    let edge_style = chars_of("edge [");
    if starts_with(&e, &graph_style) || starts_with(&e, &node_style) || starts_with(
        &e,
        &edge_style,
    ) {
        return Element::Skipped;
    }
    let arrow = chars_of("->");
    let has_arrow = find(&e, &arrow).is_some();
    if find_char(&e, 0, m, '[') < m && find_char(&e, 0, m, ']') < m && !has_arrow {
        match parse_node_element(element.as_str()) {
            Some(found) => Element::Node(found.0, found.1),
            None => Element::Skipped,
        }
    } else {
        match parse_edge_element(element.as_str()) {
            Some(edge) => Element::Edge(edge),
            None => Element::Skipped,
        }
    }
}

/// The statements that the first `upto` elements of a drawing describe, by
/// identifier. Of two nodes with one identifier the later counts.
pub open spec fn nodes_among(elements: Seq<Seq<char>>, upto: int) -> Map<Seq<char>, NodeView>
    decreases upto,
{
    if upto <= 0 {
        Map::empty()
    } else {
        let rest = nodes_among(elements, upto - 1);
        match element_of(elements[upto - 1]) {
            ElementView::Node(id, node) => rest.insert(id, node),
            _ => rest,
        }
    }
}

/// The edges that the first `upto` elements of a drawing describe, in the
/// order of the drawing.
pub open spec fn edges_among(elements: Seq<Seq<char>>, upto: int) -> Seq<EdgeView>
    decreases upto,
{
    if upto <= 0 {
        Seq::empty()
    } else {
        let rest = edges_among(elements, upto - 1);
        match element_of(elements[upto - 1]) {
            ElementView::Edge(edge) => rest.push(edge),
            _ => rest,
        }
    }
}

/// Whether an edge is dashed. A dashed edge says that the statement of the
/// source depends on the target, any other edge that its proof does.
pub open spec fn is_dashed(edge: EdgeView) -> bool {
    attribute(edge.2, "style"@) == Some("dashed"@)
}

/// The targets of the first `upto` edges that start at `source` and are
/// dashed, or are not, as `dashed` says; in the order of the edges.
pub open spec fn targets_of(edges: Seq<EdgeView>, source: Seq<char>, dashed: bool, upto: int) -> Seq<
    Seq<char>,
>
    decreases upto,
{
    if upto <= 0 {
        Seq::empty()
    } else {
        let rest = targets_of(edges, source, dashed, upto - 1);
        let edge = edges[upto - 1];
        if edge.0 == source && is_dashed(edge) == dashed {
            rest.push(edge.1)
        } else {
            rest
        }
    }
}

/// A statement with its text, where it has one among the first `texts` keys
/// of `info`, and with the dependencies that the first `upto` edges give it.
pub open spec fn linked_node(
    base: NodeView,
    id: Seq<char>,
    info: Map<Seq<char>, Seq<char>>,
    done: Set<Seq<char>>,
    edges: Seq<EdgeView>,
    upto: int,
) -> NodeView {
    NodeView {
        content: if done.contains(id) && info.contains_key(id) {
            info[id]
        } else {
            base.content
        },
        type_dependencies: base.type_dependencies + targets_of(edges, id, true, upto),
        term_dependencies: base.term_dependencies + targets_of(edges, id, false, upto),
        ..base
    }
}

/// The statements of a graph, each with its text as far as the texts in
/// `done` are filled in, and with the dependencies of the first `upto` edges.
pub open spec fn linked(
    base: Map<Seq<char>, NodeView>,
    info: Map<Seq<char>, Seq<char>>,
    done: Set<Seq<char>>,
    edges: Seq<EdgeView>,
    upto: int,
) -> Map<Seq<char>, NodeView> {
    Map::new(
        |id: Seq<char>| base.contains_key(id),
        |id: Seq<char>| linked_node(base[id], id, info, done, edges, upto),
    )
}

/// Whether an edge names a source or a target that is no node.
pub open spec fn dangling(edge: EdgeView, base: Map<Seq<char>, NodeView>) -> bool {
    !base.contains_key(edge.0) || !base.contains_key(edge.1)
}

/// The first edge from position `from` on that names a source or a target
/// that is no node.
pub open spec fn first_dangling(edges: Seq<EdgeView>, base: Map<Seq<char>, NodeView>, from: int) -> Option<
    EdgeView,
>
    decreases edges.len() - from,
{
    if from < 0 || from >= edges.len() {
        None
    } else if dangling(edges[from], base) {
        Some(edges[from])
    } else {
        first_dangling(edges, base, from + 1)
    }
}

/// The identifiers that have a text but no node.
pub open spec fn unknown_nodes(
    base: Map<Seq<char>, NodeView>,
    info: Map<Seq<char>, Seq<char>>,
) -> Set<Seq<char>> {
    info.dom().difference(base.dom())
}

/// The graph that a drawing and the texts of its statements describe.
///
/// The drawing begins with `strict digraph "" {` and ends with the last `}`;
/// semicolons divide what stands between them into elements. Every text has
/// to belong to a node, and every edge has to join two nodes: the first text
/// without node, in the order of the identifiers, or else the first edge that
/// does not join two nodes, is reported.
pub open spec fn graph_of(dot: Seq<char>, info: Map<Seq<char>, Seq<char>>) -> Result<
    Map<Seq<char>, NodeView>,
    GraphErrorView,
> {
    let header = "strict digraph \"\" {"@;
    let brace = seq!['}'];
    if !header.is_prefix_of(dot) {
        Err(GraphErrorView::BadHeader)
    } else if !contains_text(dot, brace) || last_occurrence(dot, brace) < header.len() {
        Err(GraphErrorView::NoClosingBrace)
    } else {
        let elements = parts(dot.subrange(header.len() as int, last_occurrence(dot, brace)), ';');
        let base = nodes_among(elements, elements.len() as int);
        let edges = edges_among(elements, elements.len() as int);
        if !(unknown_nodes(base, info) =~= Set::<Seq<char>>::empty()) {
            Err(GraphErrorView::UnknownNode(least_name(unknown_nodes(base, info))))
        } else {
            match first_dangling(edges, base, 0) {
                Some(edge) => Err(GraphErrorView::DanglingEdge(edge.0, edge.1)),
                None => Ok(linked(base, info, info.dom(), edges, edges.len() as int)),
            }
        }
    }
}

/// The statements of a map as plain values, by identifier.
pub open spec fn nodes_view(m: Map<Seq<char>, BlueprintNode>) -> Map<Seq<char>, NodeView> {
    m.map_values(|n: BlueprintNode| n@)
}

/// The edges of a list as plain values.
pub open spec fn edges_view(v: Seq<Edge>) -> Seq<EdgeView> {
    Seq::new(v.len(), |i: int| v[i]@)
}

/// The graph of an optional result as plain values.
pub open spec fn graph_view(r: Result<NameMap<BlueprintNode>, GraphError>) -> Result<
    Map<Seq<char>, NodeView>,
    GraphErrorView,
> {
    match r {
        Ok(nodes) => Ok(nodes_view(nodes@)),
        Err(e) => Err(e@),
    }
}

/// Reads the elements of a drawing: its nodes and its edges.
fn read_elements(dot: &str, text: &Vec<char>, from: usize, to: usize) -> (r: (
    NameMap<BlueprintNode>,
    Vec<Edge>,
))
    requires
        text@ == dot@,
        from <= to <= text@.len(),
    ensures
        r.0.wf(),
        ({
            let elements = parts(dot@.subrange(from as int, to as int), ';');
            &&& nodes_view(r.0@) == nodes_among(elements, elements.len() as int)
            &&& edges_view(r.1@) == edges_among(elements, elements.len() as int)
        }),
        forall|k: int| 0 <= k < r.1@.len() ==> (#[trigger] r.1@[k]).attributes.wf(),
{
    let pieces = split(text, from, to, ';');
    let ghost elements = parts(dot@.subrange(from as int, to as int), ';');
    let mut nodes: NameMap<BlueprintNode> = NameMap::new();
    let mut edges: Vec<Edge> = Vec::new();
    let mut i: usize = 0;
    assert(nodes_view(nodes@) =~= nodes_among(elements, 0));
    assert(edges_view(edges@) =~= edges_among(elements, 0));
    while i < pieces.len()
        invariant
            i <= pieces@.len(),
            text@ == dot@,
            to <= text@.len(),
            pieces_within(pieces@, from as int, to as int),
            cut(text@, pieces@) == elements,
            nodes.wf(),
            nodes_view(nodes@) == nodes_among(elements, i as int),
            edges_view(edges@) == edges_among(elements, i as int),
            forall|k: int| 0 <= k < edges@.len() ==> (#[trigger] edges@[k]).attributes.wf(),
        decreases pieces@.len() - i,
    {
        let piece = pieces[i];
        assert(elements[i as int] == text@.subrange(piece.start as int, piece.end as int));
        let element = slice(dot, piece.start, piece.end);
        let ghost nodes_before = nodes_view(nodes@);
        let ghost edges_before = edges_view(edges@);
        match parse_element(element.as_str()) {
            Element::Skipped => {},
            Element::Node(id, node) => {
                nodes.insert(id, node);
                assert(nodes_view(nodes@) =~= nodes_before.insert(id@, node@));
            },
            Element::Edge(edge) => {
                edges.push(edge);
                assert(edges_view(edges@) =~= edges_before.push(edge@));
            },
        }
        i = i + 1;
    }
    (nodes, edges)
}

/// Gives every statement its text. The first text that belongs to no
/// statement is an error.
fn fill_contents(
    nodes: &mut NameMap<BlueprintNode>,
    node_info: &NameMap<String>,
    Ghost(edges): Ghost<Seq<EdgeView>>,
) -> (r: Result<(), GraphError>)
    requires
        old(nodes).wf(),
        node_info.wf(),
    ensures
        final(nodes).wf(),
        match r {
            Ok(_) => {
                &&& unknown_nodes(nodes_view(old(nodes)@), texts_view(node_info@)) =~= Set::<
                    Seq<char>,
                >::empty()
                &&& nodes_view(final(nodes)@) == linked(
                    nodes_view(old(nodes)@),
                    texts_view(node_info@),
                    texts_view(node_info@).dom(),
                    edges,
                    0,
                )
            },
            Err(e) => {
                &&& !(unknown_nodes(nodes_view(old(nodes)@), texts_view(node_info@)) =~= Set::<
                    Seq<char>,
                >::empty())
                &&& e@ == GraphErrorView::UnknownNode(
                    least_name(unknown_nodes(nodes_view(old(nodes)@), texts_view(node_info@))),
                )
            },
        },
{
    let ghost base = nodes_view(nodes@);
    let ghost info = texts_view(node_info@);
    let ghost keys = node_info.keys();
    let mut i: usize = 0;
    proof {
        assert(keys.take(0).to_set() =~= Set::<Seq<char>>::empty());
        assert(nodes_view(nodes@) =~= linked(base, info, keys.take(0).to_set(), edges, 0)) by {
            assert forall|id: Seq<char>| base.contains_key(id) implies #[trigger] base[id]
                == linked_node(base[id], id, info, keys.take(0).to_set(), edges, 0) by {
                let b = base[id];
                assert(b.type_dependencies + targets_of(edges, id, true, 0)
                    =~= b.type_dependencies);
                assert(b.term_dependencies + targets_of(edges, id, false, 0)
                    =~= b.term_dependencies);
            }
        }
    }
    while i < node_info.len()
        invariant
            i <= keys.len(),
            node_info.wf(),
            keys == node_info.keys(),
            info == texts_view(node_info@),
            base == nodes_view(old(nodes)@),
            nodes.wf(),
            nodes_view(nodes@) == linked(base, info, keys.take(i as int).to_set(), edges, 0),
            forall|j: int| 0 <= j < i ==> base.contains_key(#[trigger] keys[j]),
        decreases keys.len() - i,
    {
        let id = node_info.key_at(i);
        let content = node_info.value_at(i);
        let ghost done = keys.take(i as int).to_set();
        let ghost now = keys.take(i + 1).to_set();
        proof {
            node_info.lemma_value_at(i as int);
            keys.take(i as int).lemma_push_to_set_commute(keys[i as int]);
            assert(keys.take(i + 1) =~= keys.take(i as int).push(keys[i as int]));
            assert(nodes_view(nodes@).dom() =~= base.dom());
            assert(nodes@.contains_key(id@) <==> base.contains_key(id@));
            assert(info.contains_key(id@));
        }
        match nodes.position(id.as_str()) {
            Some(p) => {
                let ghost before = nodes_view(nodes@);
                let mut node = nodes.value_at(p).copy();
                node.content = content.clone();
                nodes.set_value_at(p, node);
                proof {
                    assert(nodes_view(nodes@) =~= before.insert(id@, node@));
                    assert(nodes_view(nodes@) =~= linked(base, info, now, edges, 0)) by {
                        assert forall|x: Seq<char>| base.contains_key(x) implies #[trigger] nodes_view(
                            nodes@,
                        )[x] == linked_node(base[x], x, info, now, edges, 0) by {
                            if x != id@ {
                                assert(before[x] == linked_node(base[x], x, info, done, edges, 0));
                            }
                        }
                    }
                }
            },
            None => {
                proof {
                    let unknown = unknown_nodes(base, info);
                    assert(unknown.contains(id@));
                    assert(is_least(unknown, id@)) by {
                        assert forall|other: Seq<char>| unknown.contains(other) implies name_le(
                            id@,
                            other,
                        ) by {
                            assert(node_info@.contains_key(other));
                            assert(keys.contains(other));
                            let j = choose|j: int| 0 <= j < keys.len() && keys[j] == other;
                            if j < i {
                                assert(base.contains_key(keys[j]));
                            } else if j > i {
                                assert(name_lt(keys[i as int], keys[j]));
                            }
                        }
                    }
                    lemma_least_unique(unknown, id@, least_name(unknown));
                }
                return Err(GraphError::UnknownNode(id.clone()));
            },
        }
        i = i + 1;
    }
    proof {
        assert(keys.take(keys.len() as int) =~= keys);
        assert(keys.to_set() =~= info.dom()) by {
            assert forall|x: Seq<char>| keys.to_set().contains(x) <==> info.dom().contains(x) by {
                assert(keys.contains(x) <==> node_info@.contains_key(x));
            }
        }
        assert(unknown_nodes(base, info) =~= Set::<Seq<char>>::empty()) by {
            assert forall|x: Seq<char>| !unknown_nodes(base, info).contains(x) by {
                if info.dom().contains(x) {
                    assert(keys.contains(x));
                    let j = choose|j: int| 0 <= j < keys.len() && keys[j] == x;
                    assert(base.contains_key(keys[j]));
                }
            }
        }
    }
    Ok(())
}

/// Whether an edge is dashed.
fn edge_is_dashed(edge: &Edge) -> (b: bool)
    requires
        edge.attributes.wf(),
    ensures
        b == is_dashed(edge@),
{
    match edge.attributes.get("style") {
        Some(style) => str_eq(style.as_str(), "dashed"),
        None => false,
    }
}

/// Gives every statement the dependencies that the edges say. The first edge
/// that does not join two statements is an error.
fn link_edges(
    nodes: &mut NameMap<BlueprintNode>,
    edges: &Vec<Edge>,
    Ghost(base): Ghost<Map<Seq<char>, NodeView>>,
    Ghost(info): Ghost<Map<Seq<char>, Seq<char>>>,
) -> (r: Result<(), GraphError>)
    requires
        old(nodes).wf(),
        nodes_view(old(nodes)@) == linked(base, info, info.dom(), edges_view(edges@), 0),
        forall|k: int| 0 <= k < edges@.len() ==> (#[trigger] edges@[k]).attributes.wf(),
    ensures
        final(nodes).wf(),
        match r {
            Ok(_) => {
                &&& first_dangling(edges_view(edges@), base, 0) is None
                &&& nodes_view(final(nodes)@) == linked(
                    base,
                    info,
                    info.dom(),
                    edges_view(edges@),
                    edges@.len() as int,
                )
            },
            Err(e) => {
                &&& first_dangling(edges_view(edges@), base, 0) matches Some(edge)
                &&& e@ == GraphErrorView::DanglingEdge(edge.0, edge.1)
            },
        },
{
    let ghost all = edges_view(edges@);
    let mut k: usize = 0;
    while k < edges.len()
        invariant
            k <= edges@.len(),
            all == edges_view(edges@),
            forall|j: int| 0 <= j < edges@.len() ==> (#[trigger] edges@[j]).attributes.wf(),
            nodes.wf(),
            nodes_view(nodes@) == linked(base, info, info.dom(), all, k as int),
            first_dangling(all, base, 0) == first_dangling(all, base, k as int),
        decreases edges@.len() - k,
    {
        let edge = &edges[k];
        assert(all[k as int] == edge@);
        proof {
            assert(nodes_view(nodes@).dom() =~= base.dom());
            assert(nodes@.contains_key(edge.source@) <==> base.contains_key(edge.source@));
            assert(nodes@.contains_key(edge.target@) <==> base.contains_key(edge.target@));
        }
        let source = nodes.position(edge.source.as_str());
        let target_known = nodes.contains_key(edge.target.as_str());
        match source {
            Some(p) => {
                if !target_known {
                    return Err(GraphError::DanglingEdge(edge.source.clone(), edge.target.clone()));
                }
                let ghost before = nodes_view(nodes@);
                let dashed = edge_is_dashed(edge);
                let mut node = nodes.value_at(p).copy();
                let ghost was = node@;
                if dashed {
                    let ghost deps = names_view(node.type_dependencies@);
                    node.type_dependencies.push(edge.target.clone());
                    assert(names_view(node.type_dependencies@) =~= deps.push(edge.target@));
                } else {
                    let ghost deps = names_view(node.term_dependencies@);
                    node.term_dependencies.push(edge.target.clone());
                    assert(names_view(node.term_dependencies@) =~= deps.push(edge.target@));
                }
                nodes.set_value_at(p, node);
                proof {
                    let id = edge.source@;
                    assert(nodes_view(nodes@) =~= before.insert(id, node@));
                    assert(nodes_view(nodes@) =~= linked(base, info, info.dom(), all, k + 1)) by {
                        assert forall|x: Seq<char>| base.contains_key(x) implies #[trigger] nodes_view(
                            nodes@,
                        )[x] == linked_node(base[x], x, info, info.dom(), all, k + 1) by {
                            let b = base[x];
                            assert(before[x] == linked_node(b, x, info, info.dom(), all, k as int));
                            if x == id {
                                if dashed {
                                    assert(b.type_dependencies + targets_of(all, x, true, k + 1)
                                        =~= (b.type_dependencies + targets_of(
                                        all,
                                        x,
                                        true,
                                        k as int,
                                    )).push(edge.target@));
                                } else {
                                    assert(b.term_dependencies + targets_of(all, x, false, k + 1)
                                        =~= (b.term_dependencies + targets_of(
                                        all,
                                        x,
                                        false,
                                        k as int,
                                    )).push(edge.target@));
                                }
                            }
                        }
                    }
                }
            },
            None => {
                return Err(GraphError::DanglingEdge(edge.source.clone(), edge.target.clone()));
            },
        }
        k = k + 1;
    }
    Ok(())
}

/// Builds the dependency graph from the drawing of it in the DOT language
/// and from the texts of its statements.
pub fn build_dep_graph(dot: &str, node_info: &NameMap<String>) -> (r: Result<
    NameMap<BlueprintNode>,
    GraphError,
>)
    requires
        node_info.wf(),
    ensures
        graph_view(r) == graph_of(dot@, texts_view(node_info@)),
        r matches Ok(nodes) ==> nodes.wf(),
{
    let text = chars_of(dot);
    let header = chars_of("strict digraph \"\" {");
    if !starts_with(&text, &header) {
        return Err(GraphError::BadHeader);
    }
    let mut brace: Vec<char> = Vec::new();
    brace.push('}');
    assert(brace@ =~= seq!['}']);
    let close = match rfind(&text, &brace) {
        Some(c) => c,
        None => {
            return Err(GraphError::NoClosingBrace);
        },
    };
    if close < header.len() {
        return Err(GraphError::NoClosingBrace);
    }
    assert(occurs_at(text@, close as int, brace@));
    let (mut nodes, edges) = read_elements(dot, &text, header.len(), close);
    let ghost base = nodes_view(nodes@);
    let ghost info = texts_view(node_info@);
    match fill_contents(&mut nodes, node_info, Ghost(edges_view(edges@))) {
        Err(e) => {
            return Err(e);
        },
        Ok(_) => {},
    }
    match link_edges(&mut nodes, &edges, Ghost(base), Ghost(info)) {
        Err(e) => Err(e),
        Ok(_) => Ok(nodes),
    }
}

} // verus!
