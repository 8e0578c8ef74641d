//! The structure of a blueprint project: one entry for each statement.

use crate::atoms::opt_text;
use crate::blueprint::BlueprintNode;
use crate::blueprint::NodeView;
use crate::dep_graph::nodes_view;
use crate::name_map::NameMap;
use crate::name_set::NameSet;
use crate::name_set::names_view;
use crate::scan::slice;
use crate::scan::starts_with;
use crate::text::chars_of;
use vstd::prelude::*;
use vstd::string::*;

verus! {

/// The structure entry of one statement of a blueprint.
#[derive(Clone, Debug, PartialEq, Eq)]
pub struct Statement {
    /// The identifier of the statement: `veri:` and its name in the
    /// blueprint.
    pub veri_name: Option<String>,
    /// The identifiers of the statements that this one depends on.
    pub dependencies: Vec<String>,
    /// The text of the statement.
    pub content: String,
}

/// A structure entry of a blueprint as plain values.
pub struct StatementView {
    pub veri_name: Option<Seq<char>>,
    pub dependencies: Seq<Seq<char>>,
    pub content: Seq<char>,
}

impl View for Statement {
    type V = StatementView;

    open spec fn view(&self) -> StatementView {
        StatementView {
            veri_name: opt_text(self.veri_name),
            dependencies: names_view(self.dependencies@),
            content: self.content@,
        }
    }
}

/// The statements of a structure as plain values, by key.
pub open spec fn statements_view(m: Map<Seq<char>, Statement>) -> Map<Seq<char>, StatementView> {
    m.map_values(|s: Statement| s@)
}

/// The identifier of the statement with the given name.
pub open spec fn veri_name_of(id: Seq<char>) -> Seq<char> {
    "veri:"@ + id
}

/// The identifiers of the statements with the given names.
pub open spec fn veri_names_of(ids: Seq<Seq<char>>) -> Seq<Seq<char>> {
    Seq::new(ids.len(), |i: int| veri_name_of(ids[i]))
}

/// The identifiers of all statements that a statement depends on: first
/// those that its statement depends on, then those that its proof depends on.
pub open spec fn all_dependencies(node: NodeView) -> Seq<Seq<char>> {
    veri_names_of(node.type_dependencies) + veri_names_of(node.term_dependencies)
}

/// The identifier of the statement with the given name.
fn veri_name(id: &str) -> (r: String)
    ensures
        r@ == veri_name_of(id@),
{
    let mut r = "veri:".to_owned();
    r.append(id);
    r
}

/// Appends the identifiers of the statements with the given names.
fn push_veri_names(out: &mut Vec<String>, ids: &Vec<String>)
    ensures
        names_view(final(out)@) == names_view(old(out)@) + veri_names_of(names_view(ids@)),
{
    let ghost start = names_view(out@);
    let ghost wanted = veri_names_of(names_view(ids@));
    let mut i: usize = 0;
    assert(start + wanted.take(0) =~= start);
    while i < ids.len()
        invariant
            i <= ids@.len(),
            wanted == veri_names_of(names_view(ids@)),
            names_view(out@) == start + wanted.take(i as int),
        decreases ids@.len() - i,
    {
        let ghost before = names_view(out@);
        let name = veri_name(ids[i].as_str());
        out.push(name);
        assert(names_view(out@) =~= before.push(name@));
        assert(start + wanted.take(i + 1) =~= (start + wanted.take(i as int)).push(
            wanted[i as int],
        ));
        i = i + 1;
    }
    assert(wanted.take(ids@.len() as int) =~= wanted);
}

/// The identifiers of all statements that a statement depends on.
fn dependencies_of(node: &BlueprintNode) -> (deps: Vec<String>)
    ensures
        names_view(deps@) == all_dependencies(node@),
{
    let mut deps: Vec<String> = Vec::new();
    assert(names_view(deps@) =~= Seq::<Seq<char>>::empty());
    push_veri_names(&mut deps, &node.type_dependencies);
    push_veri_names(&mut deps, &node.term_dependencies);
    assert(Seq::<Seq<char>>::empty() + veri_names_of(node@.type_dependencies) =~= veri_names_of(
        node@.type_dependencies,
    ));
    deps
}

/// The structure entry of the statement `id`.
pub open spec fn statement_of(id: Seq<char>, node: NodeView) -> StatementView {
    StatementView {
        veri_name: Some(veri_name_of(id)),
        dependencies: all_dependencies(node),
        content: node.content,
    }
}

/// The structure of the first `upto` statements of a blueprint: the entry of
/// the statement `id` stands under the key `id.md`.
pub open spec fn structure_among(keys: Seq<Seq<char>>, nodes: Seq<BlueprintNode>, upto: int) -> Map<
    Seq<char>,
    StatementView,
>
    decreases upto,
{
    if upto <= 0 {
        Map::empty()
    } else {
        structure_among(keys, nodes, upto - 1).insert(
            keys[upto - 1] + ".md"@,
            statement_of(keys[upto - 1], nodes[upto - 1]@),
        )
    }
}

/// Makes the structure of a blueprint: one entry for each statement, with
/// its identifier, its dependencies and its text.
pub fn blueprint_to_structure(blueprint_data: &NameMap<BlueprintNode>) -> (structure: NameMap<
    Statement,
>)
    requires
        blueprint_data.wf(),
    ensures
        structure.wf(),
        statements_view(structure@) == structure_among(
            blueprint_data.keys(),
            blueprint_data.values(),
            blueprint_data.keys().len() as int,
        ),
{
    let ghost keys = blueprint_data.keys();
    let ghost nodes = blueprint_data.values();
    let mut structure: NameMap<Statement> = NameMap::new();
    let mut i: usize = 0;
    assert(statements_view(structure@) =~= structure_among(keys, nodes, 0));
    while i < blueprint_data.len()
        invariant
            i <= keys.len(),
            blueprint_data.wf(),
            keys == blueprint_data.keys(),
            nodes == blueprint_data.values(),
            structure.wf(),
            statements_view(structure@) == structure_among(keys, nodes, i as int),
        decreases keys.len() - i,
    {
        let id = blueprint_data.key_at(i);
        let node = blueprint_data.value_at(i);
        let ghost before = statements_view(structure@);
        let mut file_path = id.clone();
        file_path.append(".md");
        let statement = Statement {
            veri_name: Some(veri_name(id.as_str())),
            dependencies: dependencies_of(node),
            content: node.content.clone(),
        };
        structure.insert(file_path, statement);
        assert(statements_view(structure@) =~= before.insert(file_path@, statement@));
        i = i + 1;
    }
    structure
}

/// The metadata of a statement.
#[derive(Clone, Debug, PartialEq, Eq)]
pub struct StatementMeta {
    /// The identifier of the statement.
    pub veri_name: String,
    /// The identifiers of the statements that it depends on.
    pub dependencies: Vec<String>,
    /// Whether the statement is shown.
    pub visible: bool,
    /// The text of the statement.
    pub content: String,
}

/// The metadata of a statement as plain values.
pub struct StatementMetaView {
    pub veri_name: Seq<char>,
    pub dependencies: Seq<Seq<char>>,
    pub visible: bool,
    pub content: Seq<char>,
}

impl View for StatementMeta {
    type V = StatementMetaView;

    open spec fn view(&self) -> StatementMetaView {
        StatementMetaView {
            veri_name: self.veri_name@,
            dependencies: names_view(self.dependencies@),
            visible: self.visible,
            content: self.content@,
        }
    }
}

/// The metadata of an optional record as plain values.
pub open spec fn opt_meta_view(m: Option<StatementMeta>) -> Option<StatementMetaView> {
    match m {
        Some(m) => Some(m@),
        None => None,
    }
}

/// The name of a statement in the blueprint: its identifier without the
/// `veri:` at its start, if it starts so.
pub open spec fn node_id_of(veri_name: Seq<char>) -> Seq<char> {
    if "veri:"@.is_prefix_of(veri_name) {
        veri_name.skip("veri:"@.len() as int)
    } else {
        veri_name
    }
}

/// The metadata of a structure entry: none if the entry has no identifier or
/// if the blueprint does not know the statement.
pub open spec fn meta_of(entry: StatementView, blueprint: Map<Seq<char>, NodeView>) -> Option<
    StatementMetaView,
> {
    match entry.veri_name {
        None => None,
        Some(name) => {
            let id = node_id_of(name);
            if blueprint.contains_key(id) {
                Some(
                    StatementMetaView {
                        veri_name: name,
                        dependencies: all_dependencies(blueprint[id]),
                        visible: true,
                        content: blueprint[id].content,
                    },
                )
            } else {
                None
            }
        },
    }
}

/// Produces the metadata of one structure entry of a blueprint.
pub fn statement_metadata(entry: &Statement, blueprint_data: &NameMap<BlueprintNode>) -> (r:
    Option<StatementMeta>)
    requires
        blueprint_data.wf(),
    ensures
        opt_meta_view(r) == meta_of(entry@, nodes_view(blueprint_data@)),
{
    let name = match &entry.veri_name {
        Some(name) => name,
        None => {
            return None;
        },
    };
    let chars = chars_of(name.as_str());
    let prefix = chars_of("veri:");
    let node_id = if starts_with(&chars, &prefix) {
        assert(name@.skip(prefix@.len() as int) =~= name@.subrange(
            prefix@.len() as int,
            name@.len() as int,
        ));
        slice(name.as_str(), prefix.len(), chars.len())
    } else {
        name.clone()
    };
    match blueprint_data.get(node_id.as_str()) {
        Some(node) => Some(
            StatementMeta {
                veri_name: name.clone(),
                dependencies: dependencies_of(node),
                visible: true,
                content: node.content.clone(),
            },
        ),
        None => None,
    }
}

/// The metadata of the first `upto` entries, by identifier. Of two entries
/// with one identifier the later counts.
pub open spec fn metadata_among(
    entries: Seq<Statement>,
    blueprint: Map<Seq<char>, NodeView>,
    upto: int,
) -> Map<Seq<char>, StatementMetaView>
    decreases upto,
{
    if upto <= 0 {
        Map::empty()
    } else {
        let rest = metadata_among(entries, blueprint, upto - 1);
        match meta_of(entries[upto - 1]@, blueprint) {
            Some(meta) => rest.insert(meta.veri_name, meta),
            None => rest,
        }
    }
}

/// How many of the first `upto` entries have metadata.
pub open spec fn created_among(
    entries: Seq<Statement>,
    blueprint: Map<Seq<char>, NodeView>,
    upto: int,
) -> nat
    decreases upto,
{
    if upto <= 0 {
        0
    } else {
        let rest = created_among(entries, blueprint, upto - 1);
        if meta_of(entries[upto - 1]@, blueprint) is Some {
            rest + 1
        } else {
            rest
        }
    }
}

/// The metadata of a map as plain values, by identifier.
pub open spec fn metas_view(m: Map<Seq<char>, StatementMeta>) -> Map<Seq<char>, StatementMetaView> {
    m.map_values(|s: StatementMeta| s@)
}

/// The metadata of the statements of a structure.
#[derive(Clone, Debug, PartialEq, Eq)]
pub struct StatementsReport {
    /// The metadata, by identifier of the statement.
    pub metadata: NameMap<StatementMeta>,
    /// The number of entries with metadata.
    pub created: usize,
    /// The number of entries without.
    pub skipped: usize,
}

/// Produces the metadata of the statements of a structure from the
/// blueprint. An entry without identifier, or whose statement the blueprint
/// does not know, is passed over.
pub fn populate_blueprint_json_metadata(
    structure: &NameMap<Statement>,
    blueprint_data: &NameMap<BlueprintNode>,
) -> (report: StatementsReport)
    requires
        structure.wf(),
        blueprint_data.wf(),
    ensures
        report.metadata.wf(),
        metas_view(report.metadata@) == metadata_among(
            structure.values(),
            nodes_view(blueprint_data@),
            structure.keys().len() as int,
        ),
        report.created == created_among(
            structure.values(),
            nodes_view(blueprint_data@),
            structure.keys().len() as int,
        ),
        report.created + report.skipped == structure.keys().len(),
{
    let ghost entries = structure.values();
    let ghost blueprint = nodes_view(blueprint_data@);
    let mut metadata: NameMap<StatementMeta> = NameMap::new();
    let mut created: usize = 0;
    let mut skipped: usize = 0;
    let mut i: usize = 0;
    assert(metas_view(metadata@) =~= metadata_among(entries, blueprint, 0));
    while i < structure.len()
        invariant
            i <= structure.keys().len(),
            structure.wf(),
            blueprint_data.wf(),
            entries == structure.values(),
            blueprint == nodes_view(blueprint_data@),
            metadata.wf(),
            metas_view(metadata@) == metadata_among(entries, blueprint, i as int),
            created == created_among(entries, blueprint, i as int),
            created + skipped == i,
        decreases structure.keys().len() - i,
    {
        let ghost before = metas_view(metadata@);
        match statement_metadata(structure.value_at(i), blueprint_data) {
            Some(meta) => {
                let key = meta.veri_name.clone();
                metadata.insert(key, meta);
                assert(metas_view(metadata@) =~= before.insert(meta@.veri_name, meta@));
                created = created + 1;
            },
            None => {
                skipped = skipped + 1;
            },
        }
        i = i + 1;
    }
    StatementsReport { metadata, created, skipped }
}

/// The metadata of the statements of a structure that is stored as files.
#[derive(Clone, Debug, PartialEq, Eq)]
pub struct StatementFilesReport {
    /// For each entry its metadata, if it has any.
    pub records: Vec<Option<StatementMeta>>,
    /// The number of entries with metadata.
    pub created: usize,
    /// The number of entries without.
    pub skipped: usize,
}

/// Produces the metadata of the statements of a structure that is stored as
/// files, one entry for each file.
pub fn populate_blueprint_files_metadata(
    blueprint_data: &NameMap<BlueprintNode>,
    entries: &Vec<Statement>,
) -> (report: StatementFilesReport)
    requires
        blueprint_data.wf(),
    ensures
        report.records@.len() == entries@.len(),
        forall|i: int|
            0 <= i < entries@.len() ==> opt_meta_view(#[trigger] report.records@[i]) == meta_of(
                entries@[i]@,
                nodes_view(blueprint_data@),
            ),
        report.created == created_among(
            entries@,
            nodes_view(blueprint_data@),
            entries@.len() as int,
        ),
        report.created + report.skipped == entries@.len(),
{
    let ghost blueprint = nodes_view(blueprint_data@);
    let mut records: Vec<Option<StatementMeta>> = Vec::new();
    let mut created: usize = 0;
    let mut skipped: usize = 0;
    let mut i: usize = 0;
    while i < entries.len()
        invariant
            i <= entries@.len(),
            blueprint_data.wf(),
            blueprint == nodes_view(blueprint_data@),
            records@.len() == i,
            forall|j: int|
                0 <= j < i ==> opt_meta_view(#[trigger] records@[j]) == meta_of(
                    entries@[j]@,
                    blueprint,
                ),
            created == created_among(entries@, blueprint, i as int),
            created + skipped == i,
        decreases entries@.len() - i,
    {
        let record = statement_metadata(&entries[i], blueprint_data);
        if record.is_some() {
            created = created + 1;
        } else {
            skipped = skipped + 1;
        }
        records.push(record);
        i = i + 1;
    }
    StatementFilesReport { records, created, skipped }
}

/// The identifiers that the first `upto` entries carry.
pub open spec fn veri_names_among(entries: Seq<Statement>, upto: int) -> Set<Seq<char>> {
    Set::new(
        |name: Seq<char>|
            exists|i: int| 0 <= i < upto && #[trigger] opt_text(entries[i].veri_name) == Some(name),
    )
}

/// Gets the set of the identifiers that the entries of the structure of a
/// blueprint carry.
pub fn get_statement_names(structure: &NameMap<Statement>) -> (names: NameSet)
    requires
        structure.wf(),
    ensures
        names.wf(),
        names@ == veri_names_among(structure.values(), structure.keys().len() as int),
{
    let ghost entries = structure.values();
    let mut names = NameSet::new();
    let mut i: usize = 0;
    assert(names@ =~= veri_names_among(entries, 0));
    while i < structure.len()
        invariant
            i <= structure.keys().len(),
            structure.wf(),
            entries == structure.values(),
            names.wf(),
            names@ == veri_names_among(entries, i as int),
        decreases structure.keys().len() - i,
    {
        let ghost before = names@;
        match &structure.value_at(i).veri_name {
            Some(name) => {
                names.insert(name.clone());
            },
            None => {},
        }
        proof {
            assert(names@ =~= veri_names_among(entries, i + 1)) by {
                assert forall|x: Seq<char>| names@.contains(x) implies veri_names_among(
                    entries,
                    i + 1,
                ).contains(x) by {
                    if before.contains(x) {
                        let k = choose|k: int|
                            0 <= k < i && #[trigger] opt_text(entries[k].veri_name) == Some(x);
                        assert(opt_text(entries[k].veri_name) == Some(x));
                    } else {
                        assert(opt_text(entries[i as int].veri_name) == Some(x));
                    }
                }
                assert forall|x: Seq<char>| veri_names_among(entries, i + 1).contains(
                    x,
                ) implies names@.contains(x) by {
                    let k = choose|k: int|
                        0 <= k < i + 1 && #[trigger] opt_text(entries[k].veri_name) == Some(x);
                    if k < i {
                        assert(before.contains(x));
                    }
                }
            }
        }
        i = i + 1;
    }
    names
}

/// The statements among the first `upto` that count as verified, or that do
/// not, as `verified` says: a statement counts as verified if the blueprint
/// says of its proof one of the given things.
pub open spec fn judged_among(
    keys: Seq<Seq<char>>,
    nodes: Seq<BlueprintNode>,
    statuses: Set<Seq<char>>,
    verified: bool,
    upto: int,
) -> Set<Seq<char>> {
    Set::new(
        |name: Seq<char>|
            exists|i: int|
                0 <= i < upto && name == veri_name_of(#[trigger] keys[i]) && statuses.contains(
                    nodes[i].term_status@,
                ) == verified,
    )
}

/// One more statement has been judged: it joins the verified statements or
/// the others, and nothing else changes.
proof fn lemma_judged_step(
    keys: Seq<Seq<char>>,
    nodes: Seq<BlueprintNode>,
    statuses: Set<Seq<char>>,
    verified: bool,
    i: int,
)
    requires
        0 <= i,
    ensures
        judged_among(keys, nodes, statuses, verified, i + 1) == (if statuses.contains(
            nodes[i].term_status@,
        ) == verified {
            judged_among(keys, nodes, statuses, verified, i).insert(veri_name_of(keys[i]))
        } else {
            judged_among(keys, nodes, statuses, verified, i)
        }),
{
    let now = judged_among(keys, nodes, statuses, verified, i + 1);
    let was = judged_among(keys, nodes, statuses, verified, i);
    let joins = statuses.contains(nodes[i].term_status@) == verified;
    assert forall|x: Seq<char>| now.contains(x) implies (was.contains(x) || (joins && x
        == veri_name_of(keys[i]))) by {
        let k = choose|k: int|
            0 <= k < i + 1 && x == veri_name_of(#[trigger] keys[k]) && statuses.contains(
                nodes[k].term_status@,
            ) == verified;
        if k < i {
            assert(x == veri_name_of(keys[k]));
        }
    }
    assert forall|x: Seq<char>| was.contains(x) implies now.contains(x) by {
        let k = choose|k: int|
            0 <= k < i && x == veri_name_of(#[trigger] keys[k]) && statuses.contains(
                nodes[k].term_status@,
            ) == verified;
        assert(x == veri_name_of(keys[k]));
    }
    if joins {
        assert(now.contains(veri_name_of(keys[i])));
        assert(now =~= was.insert(veri_name_of(keys[i])));
    } else {
        assert(now =~= was);
    }
}

/// Sorts the statements of a blueprint into those that count as verified
/// and those that do not. `verified_statuses` holds what the blueprint says
/// of the proof of a statement that counts as verified.
pub fn get_blueprint_verification_results(
    blueprint_data: &NameMap<BlueprintNode>,
    verified_statuses: &NameSet,
) -> (r: (NameSet, NameSet))
    requires
        blueprint_data.wf(),
        verified_statuses.wf(),
    ensures
        r.0.wf(),
        r.1.wf(),
        r.0@ == judged_among(
            blueprint_data.keys(),
            blueprint_data.values(),
            verified_statuses@,
            true,
            blueprint_data.keys().len() as int,
        ),
        r.1@ == judged_among(
            blueprint_data.keys(),
            blueprint_data.values(),
            verified_statuses@,
            false,
            blueprint_data.keys().len() as int,
        ),
{
    let ghost keys = blueprint_data.keys();
    let ghost nodes = blueprint_data.values();
    let ghost statuses = verified_statuses@;
    let mut verified = NameSet::new();
    let mut failed = NameSet::new();
    let mut i: usize = 0;
    assert(verified@ =~= judged_among(keys, nodes, statuses, true, 0));
    assert(failed@ =~= judged_among(keys, nodes, statuses, false, 0));
    while i < blueprint_data.len()
        invariant
            i <= keys.len(),
            blueprint_data.wf(),
            verified_statuses.wf(),
            keys == blueprint_data.keys(),
            nodes == blueprint_data.values(),
            statuses == verified_statuses@,
            verified.wf(),
            failed.wf(),
            verified@ == judged_among(keys, nodes, statuses, true, i as int),
            failed@ == judged_among(keys, nodes, statuses, false, i as int),
        decreases keys.len() - i,
    {
        let name = veri_name(blueprint_data.key_at(i).as_str());
        let node = blueprint_data.value_at(i);
        let ghost was_verified = verified@;
        let ghost was_failed = failed@;
        let ok = verified_statuses.contains(node.term_status.as_str());
        if ok {
            verified.insert(name);
        } else {
            failed.insert(name);
        }
        proof {
            lemma_judged_step(keys, nodes, statuses, true, i as int);
            lemma_judged_step(keys, nodes, statuses, false, i as int);
        }
        i = i + 1;
    }
    (verified, failed)
}

} // verus!
