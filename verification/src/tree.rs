use vstd::prelude::*;

use crate::registry::FunctionRegistry;
use crate::registry::RegistryView;
use crate::registry::Site;
use crate::registry::SiteView;
use crate::registry::record_site;
use crate::strutil::str_eq;

verus! {

/// The extract of one named child field of a node: the child's source text and
/// the zero-based row and column where the child starts.
pub struct NameRef {
    pub name: String,
    pub row: usize,
    pub col: usize,
}

/// One node of a parsed file's syntax tree, carrying exactly what the analysis
/// reads: the node kind, the extracts of the two child fields the site
/// extractor may consult, and the child nodes in left-to-right order.
///
/// `declarator` carries the "declarator" child field (consulted on function
/// declarators) and `callee` the "function" child field (consulted on call
/// expressions). Either is absent when the field is missing or its text could
/// not be decoded; such a node contributes no site and the walk goes on.
pub struct SyntaxNode {
    pub kind: String,
    pub declarator: Option<NameRef>,
    pub callee: Option<NameRef>,
    pub children: Vec<SyntaxNode>,
}

/// One site extraction, as the walk yields it: the name stood in declaration
/// or in call position, at a zero-based (row, column).
pub ghost enum SiteEvent {
    Declaration { name: Seq<char>, row: nat, col: nat },
    Call { name: Seq<char>, row: nat, col: nat },
}

/// The function name an event carries.
pub open spec fn event_name(ev: SiteEvent) -> Seq<char> {
    match ev {
        SiteEvent::Declaration { name, .. } => name,
        SiteEvent::Call { name, .. } => name,
    }
}

/// Does the event record a declaration (rather than a call)?
pub open spec fn event_is_decl(ev: SiteEvent) -> bool {
    match ev {
        SiteEvent::Declaration { .. } => true,
        SiteEvent::Call { .. } => false,
    }
}

/// The site an event denotes within the file `file`.
pub open spec fn event_site(file: Seq<char>, ev: SiteEvent) -> SiteView {
    match ev {
        SiteEvent::Declaration { name, row, col } => SiteView { file, row, col },
        SiteEvent::Call { name, row, col } => SiteView { file, row, col },
    }
}

/// The events the site extractor yields for `node` itself, its children aside:
/// one declaration on a function declarator whose declarator field is present,
/// one call on a call expression whose function field is present, and none
/// otherwise.
pub open spec fn node_events(node: SyntaxNode) -> Seq<SiteEvent> {
    if node.kind@ == "function_declarator"@ {
        match node.declarator {
            Some(nr) => seq![
                SiteEvent::Declaration { name: nr.name@, row: nr.row as nat, col: nr.col as nat },
            ],
            None => Seq::empty(),
        }
    } else if node.kind@ == "call_expression"@ {
        match node.callee {
            Some(nr) => seq![
                SiteEvent::Call { name: nr.name@, row: nr.row as nat, col: nr.col as nat },
            ],
            None => Seq::empty(),
        }
    } else {
        Seq::empty()
    }
}

/// The events of the whole tree rooted at `node`, in pre-order: the node's own
/// events, then those of its children from left to right.
pub open spec fn tree_events(node: SyntaxNode) -> Seq<SiteEvent>
    decreases node,
{
    node_events(node) + forest_events(node.children@)
}

/// The events of a sequence of trees, in order.
pub open spec fn forest_events(nodes: Seq<SyntaxNode>) -> Seq<SiteEvent>
    decreases nodes,
{
    if nodes.len() == 0 {
        Seq::empty()
    } else {
        forest_events(nodes.drop_last()) + tree_events(nodes.last())
    }
}

/// How many nodes the tree rooted at `node` holds.
pub open spec fn node_count(node: SyntaxNode) -> nat
    decreases node,
{
    1 + forest_count(node.children@)
}

/// How many nodes a sequence of trees holds in all.
pub open spec fn forest_count(nodes: Seq<SyntaxNode>) -> nat
    decreases nodes,
{
    if nodes.len() == 0 {
        0
    } else {
        forest_count(nodes.drop_last()) + node_count(nodes.last())
    }
}

/// The registry after one event from file `file` is recorded.
pub open spec fn apply_event(r: RegistryView, file: Seq<char>, ev: SiteEvent) -> RegistryView {
    record_site(r, event_name(ev), event_site(file, ev), event_is_decl(ev))
}

/// The registry after a sequence of events from file `file` is recorded, in
/// order.
pub open spec fn apply_events(
    r: RegistryView,
    file: Seq<char>,
    evs: Seq<SiteEvent>,
) -> RegistryView
    decreases evs.len(),
{
    if evs.len() == 0 {
        r
    } else {
        apply_event(apply_events(r, file, evs.drop_last()), file, evs.last())
    }
}

/// The registry an entire run accumulates from `start`: the events of each
/// file's tree, file by file, in input order.
pub open spec fn run_events(
    start: RegistryView,
    files: Seq<(Seq<char>, SyntaxNode)>,
) -> RegistryView
    decreases files.len(),
{
    if files.len() == 0 {
        start
    } else {
        apply_events(
            run_events(start, files.drop_last()),
            files.last().0,
            tree_events(files.last().1),
        )
    }
}

/// Recording a concatenation of event sequences records the first, then the
/// second.
pub proof fn lemma_apply_events_concat(
    r: RegistryView,
    file: Seq<char>,
    a: Seq<SiteEvent>,
    b: Seq<SiteEvent>,
)
    ensures
        apply_events(r, file, a + b) == apply_events(apply_events(r, file, a), file, b),
    decreases b.len(),
{
    if b.len() == 0 {
        assert(a + b =~= a);
    } else {
        assert((a + b).drop_last() =~= a + b.drop_last());
        lemma_apply_events_concat(r, file, a, b.drop_last());
    }
}

/// One step along a forest: taking in one more tree appends that tree's events
/// and adds its node count.
pub proof fn lemma_forest_step(nodes: Seq<SyntaxNode>, j: int)
    requires
        0 <= j < nodes.len(),
    ensures
        forest_events(nodes.subrange(0, j + 1)) == forest_events(nodes.subrange(0, j))
            + tree_events(nodes[j]),
        forest_count(nodes.subrange(0, j + 1)) == forest_count(nodes.subrange(0, j)) + node_count(
            nodes[j],
        ),
{
    assert(nodes.subrange(0, j + 1).drop_last() =~= nodes.subrange(0, j));
    assert(nodes.subrange(0, j + 1).last() == nodes[j]);
}

/// A prefix of a forest holds no more nodes than the whole forest.
pub proof fn lemma_forest_count_prefix(nodes: Seq<SyntaxNode>, j: int)
    requires
        0 <= j <= nodes.len(),
    ensures
        forest_count(nodes.subrange(0, j)) <= forest_count(nodes),
    decreases nodes.len() - j,
{
    if j == nodes.len() {
        assert(nodes.subrange(0, j) =~= nodes);
    } else {
        lemma_forest_step(nodes, j);
        lemma_forest_count_prefix(nodes, j + 1);
    }
}

/// Visit every node of the tree rooted at `node` exactly once, in pre-order,
/// record each function declaration and call site found into `stats` against
/// the file `path`, and return how many nodes were visited.
pub fn find_function_stats(
    node: &SyntaxNode,
    path: &str,
    stats: &mut FunctionRegistry,
) -> (visited: usize)
    requires
        old(stats).wf(),
        node_count(*node) <= usize::MAX,
    ensures
        final(stats)@ == apply_events(old(stats)@, path@, tree_events(*node)),
        final(stats).wf(),
        visited == node_count(*node),
    decreases *node,
{
    if str_eq(node.kind.as_str(), "function_declarator") {
        if let Some(nr) = &node.declarator {
            stats.record_declaration(
                nr.name.as_str(),
                Site { file: path.to_owned(), row: nr.row, col: nr.col },
            );
            proof {
                let ev = SiteEvent::Declaration {
                    name: nr.name@,
                    row: nr.row as nat,
                    col: nr.col as nat,
                };
                assert(node.kind@ == "function_declarator"@);
                assert(node_events(*node) == seq![ev]);
                assert(seq![ev].drop_last() =~= Seq::<SiteEvent>::empty());
                assert(apply_events(old(stats)@, path@, Seq::<SiteEvent>::empty()) == old(
                    stats,
                )@);
                assert(apply_events(old(stats)@, path@, seq![ev]) == apply_event(
                    old(stats)@,
                    path@,
                    ev,
                ));
                assert(event_name(ev) == nr.name@);
                assert(stats@ == apply_event(old(stats)@, path@, ev));
            }
        }
    } else if str_eq(node.kind.as_str(), "call_expression") {
        if let Some(nr) = &node.callee {
            stats.record_call(
                nr.name.as_str(),
                Site { file: path.to_owned(), row: nr.row, col: nr.col },
            );
            proof {
                let ev = SiteEvent::Call {
                    name: nr.name@,
                    row: nr.row as nat,
                    col: nr.col as nat,
                };
                assert(node_events(*node) == seq![ev]);
                assert(seq![ev].drop_last() =~= Seq::<SiteEvent>::empty());
                assert(apply_events(old(stats)@, path@, Seq::<SiteEvent>::empty()) == old(
                    stats,
                )@);
                assert(apply_events(old(stats)@, path@, seq![ev]) == apply_event(
                    old(stats)@,
                    path@,
                    ev,
                ));
                assert(stats@ == apply_event(old(stats)@, path@, ev));
            }
        }
    }
    let ghost r1 = stats@;
    proof {
        let evs = node_events(*node);
        if evs.len() > 0 {
            assert(evs.drop_last() =~= Seq::<SiteEvent>::empty());
        }
        assert(r1 == apply_events(old(stats)@, path@, node_events(*node)));
    }
    let mut visited: usize = 1;
    let n: usize = node.children.len();
    let mut i: usize = 0;
    while i < n
        invariant
            i <= n,
            n == node.children@.len(),
            stats.wf(),
            node_count(*node) <= usize::MAX,
            r1 == apply_events(old(stats)@, path@, node_events(*node)),
            stats@ == apply_events(r1, path@, forest_events(node.children@.subrange(0, i as int))),
            visited == 1 + forest_count(node.children@.subrange(0, i as int)),
        decreases n - i,
    {
        proof {
            lemma_forest_step(node.children@, i as int);
            lemma_forest_count_prefix(node.children@, i + 1);
        }
        let c = find_function_stats(&node.children[i], path, stats);
        proof {
            lemma_apply_events_concat(
                r1,
                path@,
                forest_events(node.children@.subrange(0, i as int)),
                tree_events(node.children@[i as int]),
            );
        }
        visited = visited + c;
        i = i + 1;
    }
    proof {
        assert(node.children@.subrange(0, n as int) =~= node.children@);
        lemma_apply_events_concat(
            old(stats)@,
            path@,
            node_events(*node),
            forest_events(node.children@),
        );
    }
    visited
}

} // verus!
