//! The dependency graph page of a blueprint: where the drawing of the graph
//! and the texts of the statements stand in the HTML document.

use crate::atoms::opt_text;
use crate::blueprint::BlueprintNode;
use crate::blueprint::NodeView;
use crate::blueprint::texts_view;
use crate::dep_graph::GraphError;
use crate::dep_graph::GraphErrorView;
use crate::dep_graph::build_dep_graph;
use crate::dep_graph::graph_of;
use crate::dep_graph::nodes_view;
use crate::name_map::NameMap;
use crate::scan::ends_with;
use crate::scan::slice;
use crate::scan::starts_with;
use crate::text::chars_of;
use vstd::prelude::*;
use vstd::string::*;

verus! {

/// What the page holds of one element that was selected in it.
#[derive(Clone, Debug, PartialEq, Eq)]
pub struct ModalDiv {
    /// The value of the attribute of the element that holds its identifier.
    pub id: Option<String>,
    /// For each child node of the element, whether it is an element.
    pub children: Vec<bool>,
    /// The HTML inside the element.
    pub inner_html: String,
}

/// A selected element as plain values.
pub struct ModalDivView {
    pub id: Option<Seq<char>>,
    pub children: Seq<bool>,
    pub inner_html: Seq<char>,
}

impl View for ModalDiv {
    type V = ModalDivView;

    open spec fn view(&self) -> ModalDivView {
        ModalDivView {
            id: opt_text(self.id),
            children: self.children@,
            inner_html: self.inner_html@,
        }
    }
}

/// The selected elements of a list as plain values.
pub open spec fn divs_view(v: Seq<ModalDiv>) -> Seq<ModalDivView> {
    Seq::new(v.len(), |i: int| v[i]@)
}

/// The selected elements of an optional list as plain values.
pub open spec fn opt_divs_view(v: Option<Vec<ModalDiv>>) -> Option<Seq<ModalDivView>> {
    match v {
        Some(v) => Some(divs_view(v@)),
        None => None,
    }
}

/// The elements of an HTML document that a CSS selector selects, in the
/// order of the document, each with the value of the attribute `id_attr`;
/// nothing where the selector is malformed.
pub uninterp spec fn selected_elements(
    html: Seq<char>,
    selector: Seq<char>,
    id_attr: Seq<char>,
) -> Option<Seq<ModalDivView>>;

/// Parses a document with `scraper::Html::parse_document` and a selector
/// with `scraper::Selector::parse`, and collects what `select` yields: of each
/// element the value of the attribute `id_attr`, the kinds of its children
/// and its inner HTML.
///
/// Trusted: the result is a function of the arguments alone; it is `None`
/// where the selector does not parse.
#[verifier::external_body]
fn select_elements(html: &str, selector: &str, id_attr: &str) -> (r: Option<Vec<ModalDiv>>)
    ensures
        opt_divs_view(r) == selected_elements(html@, selector@, id_attr@),
{
    let selector = scraper::Selector::parse(selector).ok()?;
    let document = scraper::Html::parse_document(html);
    Some(
        document.select(&selector).map(
            |e| ModalDiv {
                id: e.value().attr(id_attr).map(|s| s.to_string()),
                children: e.children().map(|n| n.value().is_element()).collect(),
                inner_html: e.inner_html(),
            },
        ).collect(),
    )
}

/// The texts of a list of optional strings.
pub open spec fn groups_view(v: Seq<Option<String>>) -> Seq<Option<Seq<char>>> {
    Seq::new(v.len(), |i: int| opt_text(v[i]))
}

/// The texts of an optional list of optional strings.
pub open spec fn opt_groups_view(v: Option<Vec<Option<String>>>) -> Option<Seq<Option<Seq<char>>>> {
    match v {
        Some(v) => Some(groups_view(v@)),
        None => None,
    }
}

/// For each match of a regular expression in a text, from left to right and
/// without overlap, what its group number `group` matched; nothing where the
/// expression is malformed.
pub uninterp spec fn group_matches(pattern: Seq<char>, group: usize, text: Seq<char>) -> Option<
    Seq<Option<Seq<char>>>,
>;

/// Compiles a regular expression with `regex::Regex::new` and collects the
/// group number `group` of each of the matches that `captures_iter` yields.
///
/// Trusted: the result is a function of the arguments alone; it is `None`
/// where the expression does not compile.
#[verifier::external_body]
fn match_groups(pattern: &str, group: usize, text: &str) -> (r: Option<Vec<Option<String>>>)
    ensures
        opt_groups_view(r) == group_matches(pattern@, group, text@),
{
    let expression = regex::Regex::new(pattern).ok()?;
    Some(
        expression.captures_iter(text).map(|c| c.get(group).map(|m| m.as_str().to_string())).collect(),
    )
}

/// The drawing among the arguments of the calls of `renderDot` from position
/// `from` on: the first argument that begins with `strict digraph`. There is
/// none if a call without argument comes before it.
pub open spec fn picked(groups: Seq<Option<Seq<char>>>, from: int) -> Option<Seq<char>>
    decreases groups.len() - from,
{
    if from < 0 || from >= groups.len() {
        None
    } else {
        match groups[from] {
            None => None,
            Some(content) => if "strict digraph"@.is_prefix_of(content) {
                Some(content)
            } else {
                picked(groups, from + 1)
            },
        }
    }
}

/// Picks the drawing among the arguments of the calls of `renderDot`.
pub fn pick_dep_graph_string(groups: &Vec<Option<String>>) -> (r: Option<String>)
    ensures
        opt_text(r) == picked(groups_view(groups@), 0),
{
    let wanted = chars_of("strict digraph");
    let mut i: usize = 0;
    while i < groups.len()
        invariant
            i <= groups@.len(),
            wanted@ == "strict digraph"@,
            picked(groups_view(groups@), 0) == picked(groups_view(groups@), i as int),
        decreases groups@.len() - i,
    {
        assert(groups_view(groups@)[i as int] == opt_text(groups@[i as int]));
        match &groups[i] {
            None => {
                return None;
            },
            Some(content) => {
                let chars = chars_of(content.as_str());
                if starts_with(&chars, &wanted) {
                    return Some(content.clone());
                }
            },
        }
        i = i + 1;
    }
    None
}

/// The regular expression that finds the calls of `renderDot` with their
/// argument between backticks.
pub open spec fn render_dot_pattern() -> Seq<char> {
    "\\.renderDot\\(`([^`]*)`\\)"@
}

/// The drawing of the dependency graph in a page.
pub open spec fn dep_graph_string(html: Seq<char>) -> Option<Seq<char>> {
    match group_matches(render_dot_pattern(), 1, html) {
        Some(groups) => picked(groups, 0),
        None => None,
    }
}

/// Extracts the drawing of the dependency graph from the page: the argument
/// of the first call of `renderDot` whose argument begins with
/// `strict digraph`.
pub fn get_dep_graph_string(html_content: &str) -> (r: Option<String>)
    ensures
        opt_text(r) == dep_graph_string(html_content@),
{
    match match_groups("\\.renderDot\\(`([^`]*)`\\)", 1, html_content) {
        Some(groups) => pick_dep_graph_string(&groups),
        None => None,
    }
}

/// Why a page of a blueprint cannot be read.
#[derive(Clone, Debug, PartialEq, Eq)]
pub enum BlueprintError {
    /// The selector for the texts of the statements is malformed.
    BadSelector,
    /// The container of a text has this many child elements, not one.
    ChildCount(usize),
    /// The identifier of the container of a text does not end in `_modal`.
    BadModalId(String),
    /// The page holds no drawing of the dependency graph.
    NoGraph,
    /// The drawing cannot be read.
    Graph(GraphError),
}

/// The reason as plain values.
pub enum BlueprintErrorView {
    BadSelector,
    ChildCount(usize),
    BadModalId(Seq<char>),
    NoGraph,
    Graph(GraphErrorView),
}

impl View for BlueprintError {
    type V = BlueprintErrorView;

    open spec fn view(&self) -> BlueprintErrorView {
        match self {
            BlueprintError::BadSelector => BlueprintErrorView::BadSelector,
            BlueprintError::ChildCount(n) => BlueprintErrorView::ChildCount(*n),
            BlueprintError::BadModalId(id) => BlueprintErrorView::BadModalId(id@),
            BlueprintError::NoGraph => BlueprintErrorView::NoGraph,
            BlueprintError::Graph(e) => BlueprintErrorView::Graph(e@),
        }
    }
}

/// How many of the first `upto` child nodes are elements.
pub open spec fn element_count(children: Seq<bool>, upto: int) -> nat
    decreases upto,
{
    if upto <= 0 {
        0
    } else {
        let rest = element_count(children, upto - 1);
        if children[upto - 1] {
            rest + 1
        } else {
            rest
        }
    }
}

/// What one container adds to the texts of the statements. A container
/// without `id` adds nothing. Any other container has to have exactly one
/// child element and an `id` that ends in `_modal`; what stands before that
/// ending is the identifier of the statement, and the HTML inside the
/// container is its text.
pub open spec fn with_div(texts: Map<Seq<char>, Seq<char>>, div: ModalDivView) -> Result<
    Map<Seq<char>, Seq<char>>,
    BlueprintErrorView,
> {
    match div.id {
        None => Ok(texts),
        Some(id) => {
            let count = element_count(div.children, div.children.len() as int);
            if count != 1 {
                Err(BlueprintErrorView::ChildCount(count as usize))
            } else if "_modal"@.is_suffix_of(id) {
                Ok(texts.insert(id.take(id.len() - "_modal"@.len()), div.inner_html))
            } else {
                Err(BlueprintErrorView::BadModalId(id))
            }
        },
    }
}

/// The texts of the statements that the first `upto` containers give, or the
/// fault of the first container that has one.
pub open spec fn node_info_among(divs: Seq<ModalDivView>, upto: int) -> Result<
    Map<Seq<char>, Seq<char>>,
    BlueprintErrorView,
>
    decreases upto,
{
    if upto <= 0 {
        Ok(Map::empty())
    } else {
        match node_info_among(divs, upto - 1) {
            Err(e) => Err(e),
            Ok(texts) => with_div(texts, divs[upto - 1]),
        }
    }
}

/// The fault of a container stays the fault of the page, whatever follows.
pub proof fn lemma_fault_stays(divs: Seq<ModalDivView>, at: int, upto: int)
    requires
        0 <= at <= upto,
        node_info_among(divs, at) is Err,
    ensures
        node_info_among(divs, upto) == node_info_among(divs, at),
    decreases upto - at,
{
    if at < upto {
        lemma_fault_stays(divs, at, upto - 1);
    }
}

/// The texts of a result as plain values.
pub open spec fn info_view(r: Result<NameMap<String>, BlueprintError>) -> Result<
    Map<Seq<char>, Seq<char>>,
    BlueprintErrorView,
> {
    match r {
        Ok(m) => Ok(texts_view(m@)),
        Err(e) => Err(e@),
    }
}

/// Counts the child nodes that are elements.
fn count_elements(children: &Vec<bool>) -> (n: usize)
    ensures
        n == element_count(children@, children@.len() as int),
{
    let mut n: usize = 0;
    let mut i: usize = 0;
    while i < children.len()
        invariant
            i <= children@.len(),
            n == element_count(children@, i as int),
            n <= i,
        decreases children@.len() - i,
    {
        if children[i] {
            n = n + 1;
        }
        i = i + 1;
    }
    n
}

/// Collects the texts of the statements from their containers in the page.
pub fn get_node_info(divs: &Vec<ModalDiv>) -> (r: Result<NameMap<String>, BlueprintError>)
    ensures
        info_view(r) == node_info_among(divs_view(divs@), divs@.len() as int),
        r matches Ok(m) ==> m.wf(),
{
    let ghost all = divs_view(divs@);
    let suffix = chars_of("_modal");
    let mut ids: NameMap<String> = NameMap::new();
    let mut i: usize = 0;
    assert(texts_view(ids@) =~= Map::<Seq<char>, Seq<char>>::empty());
    while i < divs.len()
        invariant
            i <= divs@.len(),
            all == divs_view(divs@),
            suffix@ == "_modal"@,
            ids.wf(),
            node_info_among(all, i as int) == Ok::<
                Map<Seq<char>, Seq<char>>,
                BlueprintErrorView,
            >(texts_view(ids@)),
        decreases divs@.len() - i,
    {
        let div = &divs[i];
        assert(all[i as int] == div@);
        let ghost before = texts_view(ids@);
        match &div.id {
            None => {},
            Some(id) => {
                let count = count_elements(&div.children);
                if count != 1 {
                    proof {
                        lemma_fault_stays(all, i + 1, divs@.len() as int);
                    }
                    return Err(BlueprintError::ChildCount(count));
                }
                let chars = chars_of(id.as_str());
                if ends_with(&chars, &suffix) {
                    let node_id = slice(id.as_str(), 0, chars.len() - suffix.len());
                    assert(id@.take(id@.len() - suffix@.len()) =~= id@.subrange(
                        0,
                        id@.len() - suffix@.len(),
                    ));
                    let content = div.inner_html.clone();
                    ids.insert(node_id, content);
                    assert(texts_view(ids@) =~= before.insert(node_id@, content@));
                } else {
                    proof {
                        lemma_fault_stays(all, i + 1, divs@.len() as int);
                    }
                    return Err(BlueprintError::BadModalId(id.clone()));
                }
            },
        }
        i = i + 1;
    }
    Ok(ids)
}

/// The graph of a result as plain values.
pub open spec fn blueprint_view(r: Result<NameMap<BlueprintNode>, BlueprintError>) -> Result<
    Map<Seq<char>, NodeView>,
    BlueprintErrorView,
> {
    match r {
        Ok(nodes) => Ok(nodes_view(nodes@)),
        Err(e) => Err(e@),
    }
}

/// The dependency graph of a page, given the texts of its statements.
pub open spec fn dep_graph_of(html: Seq<char>, info: Map<Seq<char>, Seq<char>>) -> Result<
    Map<Seq<char>, NodeView>,
    BlueprintErrorView,
> {
    match dep_graph_string(html) {
        None => Err(BlueprintErrorView::NoGraph),
        Some(dot) => match graph_of(dot, info) {
            Ok(nodes) => Ok(nodes),
            Err(e) => Err(BlueprintErrorView::Graph(e)),
        },
    }
}

/// Reads the dependency graph of a page: finds its drawing and builds the
/// graph from it and from the texts of the statements.
pub fn get_dep_graph(html_content: &str, node_info: &NameMap<String>) -> (r: Result<
    NameMap<BlueprintNode>,
    BlueprintError,
>)
    requires
        node_info.wf(),
    ensures
        blueprint_view(r) == dep_graph_of(html_content@, texts_view(node_info@)),
        r matches Ok(nodes) ==> nodes.wf(),
{
    match get_dep_graph_string(html_content) {
        None => Err(BlueprintError::NoGraph),
        Some(dot) => match build_dep_graph(dot.as_str(), node_info) {
            Ok(nodes) => Ok(nodes),
            Err(e) => Err(BlueprintError::Graph(e)),
        },
    }
}

/// The blueprint that a page describes, where `selector` selects the
/// containers of the texts of the statements.
pub open spec fn blueprint_from(html: Seq<char>, selector: Seq<char>) -> Result<
    Map<Seq<char>, NodeView>,
    BlueprintErrorView,
> {
    match selected_elements(html, selector, "id"@) {
        None => Err(BlueprintErrorView::BadSelector),
        Some(divs) => match node_info_among(divs, divs.len() as int) {
            Err(e) => Err(e),
            Ok(info) => dep_graph_of(html, info),
        },
    }
}

/// Reads the blueprint from a dependency graph page: the texts of the
/// statements stand in the elements that `selector` selects, the graph in
/// the call of `renderDot`.
pub fn read_blueprint(html_content: &str, selector: &str) -> (r: Result<
    NameMap<BlueprintNode>,
    BlueprintError,
>)
    ensures
        blueprint_view(r) == blueprint_from(html_content@, selector@),
        r matches Ok(nodes) ==> nodes.wf(),
{
    let divs = match select_elements(html_content, selector, "id") {
        Some(divs) => divs,
        None => {
            return Err(BlueprintError::BadSelector);
        },
    };
    let node_info = match get_node_info(&divs) {
        Ok(info) => info,
        Err(e) => {
            return Err(e);
        },
    };
    get_dep_graph(html_content, &node_info)
}

/// The blueprint that a page of the blueprint tool describes.
pub open spec fn blueprint_of(html: Seq<char>) -> Result<
    Map<Seq<char>, NodeView>,
    BlueprintErrorView,
> {
    blueprint_from(html, "div.dep-modal-container"@)
}

/// Reads the blueprint from the dependency graph page of the blueprint tool,
/// in which the texts of the statements stand in the elements
/// `div.dep-modal-container`.
pub fn generate_blueprint_json(html_content: &str) -> (r: Result<
    NameMap<BlueprintNode>,
    BlueprintError,
>)
    ensures
        blueprint_view(r) == blueprint_of(html_content@),
        r matches Ok(nodes) ==> nodes.wf(),
{
    read_blueprint(html_content, "div.dep-modal-container")
}

} // verus!
