//! The dependency graph of a template and its Mermaid rendering: nodes carry
//! the resource they were made from, edges point from the resource that
//! initiates to the resource it depends on.

use vstd::prelude::*;
use crate::cloudformation::{
    Name, Property, PropertyView, Resource, ResourceType, ResourceView, Template, resources_view,
};
use crate::json::{JsonValue, JsonView, flat_text};
use crate::text::{is_substring, str_contains};

verus! {

/// One endpoint of an edge: a resource as it is drawn.
#[derive(Debug, PartialEq)]
pub struct Node {
    pub name: Name,
    pub typ: ResourceType,
    pub properties: Property,
}

/// The mathematical shape of a `Node`.
pub struct NodeView {
    pub name: Seq<char>,
    pub typ: ResourceType,
    pub properties: PropertyView,
}

impl View for Node {
    type V = NodeView;

    open spec fn view(&self) -> NodeView {
        NodeView { name: self.name@, typ: self.typ, properties: self.properties@ }
    }
}

impl Clone for Node {
    fn clone(&self) -> (res: Self)
        ensures
            res@ == self@,
    {
        Node {
            name: self.name.clone(),
            typ: self.typ,
            properties: self.properties.clone(),
        }
    }
}

/// The node a resource is drawn as.
pub open spec fn resource_node(r: ResourceView) -> NodeView {
    NodeView { name: r.name, typ: r.typ, properties: r.properties }
}

/// The human-facing name a node is labelled with: the kind-specific display
/// name for compute and queue resources, the raw resource name otherwise.
pub open spec fn display_name(n: NodeView) -> Seq<char> {
    match n.properties {
        PropertyView::Lambda { function_name, .. } => function_name,
        PropertyView::Sqs { queue_name } => queue_name,
        _ => n.name,
    }
}

/// The Mermaid markup of one node: its display name wrapped in the bracket
/// pair denoting its kind's shape.
pub open spec fn shape_text(n: NodeView) -> Seq<char> {
    let d = display_name(n);
    match n.typ {
        ResourceType::Lambda => d + "(["@ + d + "])"@,
        ResourceType::Sqs => d + "(("@ + d + "))"@,
        ResourceType::ApiGateway => d + "[["@ + d + "]]"@,
        ResourceType::EventSourceMapping => d + "{"@ + d + "||}"@,
        ResourceType::Other => Seq::empty(),
    }
}

/// Whether a resource kind may appear in the graph at all.
pub open spec fn keep(typ: ResourceType) -> bool {
    match typ {
        ResourceType::Other => false,
        _ => true,
    }
}

/// Whether a resource kind is eligible to appear in the graph. `Other`
/// resources are never graph-worthy.
pub fn should_keep(typ: ResourceType) -> (r: bool)
    ensures
        r == keep(typ),
{
    match typ {
        ResourceType::Other => false,
        ResourceType::Lambda => true,
        ResourceType::Sqs => true,
        ResourceType::ApiGateway => true,
        ResourceType::EventSourceMapping => true,
    }
}

impl Node {
    /// The node a resource is drawn as.
    pub fn from(resource: Resource) -> (n: Self)
        ensures
            n@ == resource_node(resource@),
    {
        Node { name: resource.name, typ: resource.typ, properties: resource.properties }
    }

    /// The human-facing name this node is labelled with.
    pub fn get_name(&self) -> (r: String)
        ensures
            r@ == display_name(self@),
    {
        match &self.properties {
            Property::Lambda { function_name, .. } => function_name.clone(),
            Property::Sqs { queue_name } => queue_name.clone(),
            _ => self.name.0.clone(),
        }
    }

    /// The Mermaid markup of this node.
    pub fn to_mermaid(&self) -> (r: String)
        ensures
            r@ == shape_text(self@),
    {
        let mut out = self.get_name();
        let d = self.get_name();
        match self.typ {
            ResourceType::Lambda => {
                out.append("([");
                out.append(d.as_str());
                out.append("])");
            },
            ResourceType::Sqs => {
                out.append("((");
                out.append(d.as_str());
                out.append("))");
            },
            ResourceType::ApiGateway => {
                out.append("[[");
                out.append(d.as_str());
                out.append("]]");
            },
            ResourceType::EventSourceMapping => {
                out.append("{");
                out.append(d.as_str());
                out.append("||}");
            },
            ResourceType::Other => {
                out = String::new();
            },
        }
        out
    }
}

/// The flattened text a resource is searched in when it is scanned as a
/// referencing source: the opaque value of an `Other` resource, the
/// integration target of an API method. Kinds whose references are structural
/// expose no text and are never matched by the heuristic.
pub open spec fn reference_text(p: PropertyView) -> Option<Seq<char>> {
    match p {
        PropertyView::Other(v) => Some(flat_text(v)),
        PropertyView::ApiGateway { integration, .. } => Some(flat_text(integration)),
        _ => None,
    }
}

/// The heuristic reference test: `s` references the name when its
/// reference-bearing text contains the name as a contiguous substring.
pub open spec fn is_reference(s: ResourceView, name: Seq<char>) -> bool {
    match reference_text(s.properties) {
        Some(t) => is_substring(name, t),
        None => false,
    }
}

/// The resources of the template that heuristically reference `name`, in
/// template order.
pub open spec fn ref_filter(
    resources: Seq<ResourceView>,
    name: Seq<char>,
) -> Seq<ResourceView>
    decreases resources,
{
    if resources.len() == 0 {
        Seq::empty()
    } else if is_reference(resources.last(), name) {
        ref_filter(resources.drop_last(), name).push(resources.last())
    } else {
        ref_filter(resources.drop_last(), name)
    }
}

/// Every resource whose reference-bearing text contains `resource_name`, in
/// template order.
pub fn find_references(template: &Template, resource_name: &Name) -> (res: Vec<Resource>)
    ensures
        resources_view(res@) == ref_filter(template@, resource_name@),
{
    let mut res: Vec<Resource> = Vec::new();
    let ghost tv = template@;
    let mut i: usize = 0;
    while i < template.resources.len()
        invariant
            tv == template@,
            i <= template.resources@.len(),
            tv.len() == template.resources@.len(),
            resources_view(res@) == ref_filter(tv.take(i as int), resource_name@),
        decreases template.resources@.len() - i,
    {
        let resource = &template.resources[i];
        let referencing = match &resource.properties {
            Property::Other(props) => {
                let t = props.to_text();
                str_contains(t.as_str(), resource_name.0.as_str())
            },
            Property::ApiGateway { integration, .. } => {
                let t = integration.to_text();
                str_contains(t.as_str(), resource_name.0.as_str())
            },
            _ => false,
        };
        proof {
            assert(tv[i as int] == template.resources@[i as int]@);
            assert(referencing == is_reference(tv[i as int], resource_name@));
            assert(tv.take(i + 1).drop_last() =~= tv.take(i as int));
            assert(tv.take(i + 1).last() == tv[i as int]);
        }
        if referencing {
            let c = resource.clone();
            proof {
                assert(resources_view(res@.push(c)) =~= resources_view(res@).push(c@));
            }
            res.push(c);
        }
        i = i + 1;
    }
    proof {
        assert(tv.take(tv.len() as int) =~= tv);
    }
    res
}

/// The resource name under an attribute-reference construct: the first
/// element of the array under the `Fn::GetAtt` key, when it is a string.
pub open spec fn getatt_target(v: JsonView) -> Option<Seq<char>> {
    match v.get("Fn::GetAtt"@) {
        Some(JsonView::Array(items)) => if items.len() > 0 {
            match items[0] {
                JsonView::Str(s) => Some(s),
                _ => None,
            }
        } else {
            None
        },
        _ => None,
    }
}

/// The resource name under a plain-reference construct: the string under the
/// `Ref` key.
pub open spec fn ref_target(v: JsonView) -> Option<Seq<char>> {
    match v.get("Ref"@) {
        Some(JsonView::Str(s)) => Some(s),
        _ => None,
    }
}

/// The name of the resource an attribute reference points at, when `value`
/// has the expected `Fn::GetAtt` shape.
pub fn extract_ref_from_getatt(value: &JsonValue) -> (r: Option<String>)
    ensures
        match r {
            Some(s) => getatt_target(value@) == Some(s@),
            None => getatt_target(value@) is None,
        },
{
    match value.get("Fn::GetAtt") {
        Some(ga) => match ga {
            JsonValue::Array(items) => {
                proof {
                    crate::json::lemma_json_view_seq(items@);
                }
                if items.len() > 0 {
                    match &items[0] {
                        JsonValue::Str(s) => Some(s.clone()),
                        _ => None,
                    }
                } else {
                    None
                }
            },
            _ => None,
        },
        None => None,
    }
}

/// The name of the resource a plain reference points at, when `value` has
/// the expected `Ref` shape.
pub fn extract_ref_from_ref(value: &JsonValue) -> (r: Option<String>)
    ensures
        match r {
            Some(s) => ref_target(value@) == Some(s@),
            None => ref_target(value@) is None,
        },
{
    match value.get("Ref") {
        Some(rv) => match rv {
            JsonValue::Str(s) => Some(s.clone()),
            _ => None,
        },
        None => None,
    }
}

/// The first resource of the template bearing `name`, if any.
pub open spec fn find_resource(
    resources: Seq<ResourceView>,
    name: Seq<char>,
) -> Option<ResourceView>
    decreases resources,
{
    if resources.len() == 0 {
        None
    } else if resources.first().name == name {
        Some(resources.first())
    } else {
        find_resource(resources.drop_first(), name)
    }
}

proof fn lemma_find_resource_at(
    s: Seq<ResourceView>,
    name: Seq<char>,
    i: int,
)
    requires
        0 <= i < s.len(),
        forall|t: int| 0 <= t < i ==> s[t].name != name,
        s[i].name == name,
    ensures
        find_resource(s, name) == Some(s[i]),
    decreases i,
{
    if i > 0 {
        lemma_find_resource_at(s.drop_first(), name, i - 1);
    }
}

proof fn lemma_find_resource_none(s: Seq<ResourceView>, name: Seq<char>)
    requires
        forall|t: int| 0 <= t < s.len() ==> s[t].name != name,
    ensures
        find_resource(s, name) is None,
    decreases s,
{
    if s.len() > 0 {
        lemma_find_resource_none(s.drop_first(), name);
    }
}

/// The first resource of the template bearing `name`, if any.
fn find_by_name<'a>(template: &'a Template, name: &String) -> (r: Option<&'a Resource>)
    ensures
        match r {
            Some(x) => find_resource(template@, name@) == Some(x@),
            None => find_resource(template@, name@) is None,
        },
{
    let ghost tv = template@;
    let mut i: usize = 0;
    while i < template.resources.len()
        invariant
            tv == template@,
            i <= template.resources@.len(),
            tv.len() == template.resources@.len(),
            forall|t: int| 0 <= t < i ==> tv[t].name != name@,
        decreases template.resources@.len() - i,
    {
        if template.resources[i].name.0 == *name {
            proof {
                assert(tv[i as int] == template.resources@[i as int]@);
                lemma_find_resource_at(tv, name@, i as int);
            }
            return Some(&template.resources[i]);
        }
        proof {
            assert(tv[i as int] == template.resources@[i as int]@);
        }
        i = i + 1;
    }
    proof {
        lemma_find_resource_none(tv, name@);
    }
    None
}

/// The one edge an event source mapping stands for: from the queue its
/// event-source reference names to the function its function reference
/// names, when both constructs have the expected shape and both names
/// resolve in the template.
pub open spec fn esm_nodes(
    r: ResourceView,
    resources: Seq<ResourceView>,
) -> Option<(NodeView, NodeView)> {
    match r.properties {
        PropertyView::EventSourceMapping { event_source_arn, function_name } => match getatt_target(
            event_source_arn,
        ) {
            Some(queue_name) => match ref_target(function_name) {
                Some(lambda_name) => match find_resource(resources, queue_name) {
                    Some(queue) => match find_resource(resources, lambda_name) {
                        Some(lambda) => Some((resource_node(queue), resource_node(lambda))),
                        None => None,
                    },
                    None => None,
                },
                None => None,
            },
            None => None,
        },
        _ => None,
    }
}

/// Resolves an event source mapping to the queue node and function node it
/// binds, when its two reference constructs have the expected shape and both
/// named resources exist in the template.
pub fn extract_event_source_mapping_refs(resource: &Resource, template: &Template) -> (r: Option<
    (Node, Node),
>)
    ensures
        match r {
            Some(p) => esm_nodes(resource@, template@) == Some((p.0@, p.1@)),
            None => esm_nodes(resource@, template@) is None,
        },
{
    match &resource.properties {
        Property::EventSourceMapping { event_source_arn, function_name } => {
            let queue_name = match extract_ref_from_getatt(event_source_arn) {
                Some(n) => n,
                None => {
                    return None;
                },
            };
            let lambda_name = match extract_ref_from_ref(function_name) {
                Some(n) => n,
                None => {
                    return None;
                },
            };
            let queue_resource = match find_by_name(template, &queue_name) {
                Some(q) => q,
                None => {
                    return None;
                },
            };
            let lambda_resource = match find_by_name(template, &lambda_name) {
                Some(l) => l,
                None => {
                    return None;
                },
            };
            Some((Node::from(queue_resource.clone()), Node::from(lambda_resource.clone())))
        },
        _ => None,
    }
}

/// One edge per graph-worthy source, pointing at `target`, in source order.
pub open spec fn keep_edges(
    sources: Seq<ResourceView>,
    target: ResourceView,
) -> Seq<(NodeView, NodeView)>
    decreases sources,
{
    if sources.len() == 0 {
        Seq::empty()
    } else if keep(sources.last().typ) {
        keep_edges(sources.drop_last(), target).push(
            (resource_node(sources.last()), resource_node(target)),
        )
    } else {
        keep_edges(sources.drop_last(), target)
    }
}

/// The edges one resource contributes to the graph: none when it is not
/// graph-worthy; the single resolved binding when it is an event source
/// mapping; otherwise one edge from every graph-worthy resource that
/// heuristically references it.
pub open spec fn edges_for(
    resources: Seq<ResourceView>,
    r: ResourceView,
) -> Seq<(NodeView, NodeView)> {
    if !keep(r.typ) {
        Seq::empty()
    } else if r.typ == ResourceType::EventSourceMapping {
        match esm_nodes(r, resources) {
            Some(e) => seq![e],
            None => Seq::empty(),
        }
    } else {
        keep_edges(ref_filter(resources, r.name), r)
    }
}

/// The edges contributed by the first `n` resources, in template order.
pub open spec fn build_edges_prefix(
    resources: Seq<ResourceView>,
    n: int,
) -> Seq<(NodeView, NodeView)>
    decreases n,
{
    if n <= 0 {
        Seq::empty()
    } else {
        build_edges_prefix(resources, n - 1) + edges_for(resources, resources[n - 1])
    }
}

/// Every edge of the template's dependency graph, in the order the
/// originating resources stand in the template.
pub open spec fn build_edges(resources: Seq<ResourceView>) -> Seq<
    (NodeView, NodeView),
> {
    build_edges_prefix(resources, resources.len() as int)
}

/// The dependency graph of a template: a list of directed edges.
#[derive(Debug, PartialEq)]
pub struct AST {
    pub edges: Vec<(Node, Node)>,
}

pub open spec fn edges_view(s: Seq<(Node, Node)>) -> Seq<(NodeView, NodeView)> {
    Seq::new(s.len(), |i: int| (s[i].0@, s[i].1@))
}

impl View for AST {
    type V = Seq<(NodeView, NodeView)>;

    open spec fn view(&self) -> Seq<(NodeView, NodeView)> {
        edges_view(self.edges@)
    }
}

impl AST {
    /// Builds the dependency graph of a template: scans the resources in
    /// order and collects the edges each one contributes.
    pub fn from(template: Template) -> (ast: AST)
        ensures
            ast@ == build_edges(template@),
    {
        let mut edges: Vec<(Node, Node)> = Vec::new();
        let ghost tv = template@;
        let mut i: usize = 0;
        while i < template.resources.len()
            invariant
                tv == template@,
                i <= template.resources@.len(),
                tv.len() == template.resources@.len(),
                edges_view(edges@) == build_edges_prefix(tv, i as int),
            decreases template.resources@.len() - i,
        {
            proof {
                assert(tv[i as int] == template.resources@[i as int]@);
            }
            let resource = &template.resources[i];
            if should_keep(resource.typ) {
                if resource.typ == ResourceType::EventSourceMapping {
                    match extract_event_source_mapping_refs(resource, &template) {
                        Some((source_queue, target_lambda)) => {
                            proof {
                                assert(edges_view(
                                    edges@.push((source_queue, target_lambda)),
                                ) =~= edges_view(edges@).push((source_queue@, target_lambda@)));
                                assert(edges_for(tv, tv[i as int]) =~= seq![
                                    (source_queue@, target_lambda@),
                                ]);
                            }
                            edges.push((source_queue, target_lambda));
                        },
                        None => {
                            proof {
                                assert(edges_for(tv, tv[i as int]) =~= Seq::<
                                    (NodeView, NodeView),
                                >::empty());
                            }
                        },
                    }
                } else {
                    let referenced_node = Node::from(resource.clone());
                    let references = find_references(&template, &resource.name);
                    let ghost rv = resources_view(references@);
                    let ghost target = tv[i as int];
                    proof {
                        assert(rv == ref_filter(tv, target.name));
                        assert(referenced_node@ == resource_node(target));
                    }
                    let mut j: usize = 0;
                    while j < references.len()
                        invariant
                            j <= references@.len(),
                            rv == resources_view(references@),
                            rv.len() == references@.len(),
                            referenced_node@ == resource_node(target),
                            edges_view(edges@) == build_edges_prefix(tv, i as int) + keep_edges(
                                rv.take(j as int),
                                target,
                            ),
                        decreases references@.len() - j,
                    {
                        proof {
                            assert(rv[j as int] == references@[j as int]@);
                            assert(rv.take(j + 1).drop_last() =~= rv.take(j as int));
                            assert(rv.take(j + 1).last() == rv[j as int]);
                        }
                        if should_keep(references[j].typ) {
                            let referencing_node = Node::from(references[j].clone());
                            let target_node = referenced_node.clone();
                            proof {
                                assert(edges_view(edges@.push((referencing_node, target_node)))
                                    =~= edges_view(edges@).push(
                                    (referencing_node@, target_node@),
                                ));
                                assert(edges_view(edges@).push((referencing_node@, target_node@))
                                    =~= build_edges_prefix(tv, i as int) + keep_edges(
                                    rv.take(j + 1),
                                    target,
                                ));
                            }
                            edges.push((referencing_node, target_node));
                        }
                        j = j + 1;
                    }
                    proof {
                        assert(rv.take(rv.len() as int) =~= rv);
                        assert(edges_for(tv, target) == keep_edges(rv, target));
                    }
                }
            } else {
                proof {
                    assert(edges_for(tv, tv[i as int]) =~= Seq::<(NodeView, NodeView)>::empty());
                }
            }
            proof {
                assert(edges_view(edges@) =~= build_edges_prefix(tv, i + 1));
            }
            i = i + 1;
        }
        proof {
            assert(build_edges_prefix(tv, tv.len() as int) == build_edges(tv));
        }
        AST { edges }
    }
}

/// The markup line of one edge: the two node shapes joined by an arrow.
pub open spec fn edge_text(e: (NodeView, NodeView)) -> Seq<char> {
    shape_text(e.0) + " --> "@ + shape_text(e.1) + "\n"@
}

/// The markup lines of an edge list, in order.
pub open spec fn edges_text(edges: Seq<(NodeView, NodeView)>) -> Seq<char>
    decreases edges,
{
    if edges.len() == 0 {
        Seq::empty()
    } else {
        edges_text(edges.drop_last()) + edge_text(edges.last())
    }
}

/// A full Mermaid flowchart block: the fixed opening marker, one line per
/// edge, and the closing marker.
pub open spec fn mermaid_text(edges: Seq<(NodeView, NodeView)>) -> Seq<char> {
    "```mermaid\nflowchart LR\n"@ + edges_text(edges) + "```"@
}

impl AST {
    /// Renders the graph as a fenced Mermaid flowchart, one line per edge,
    /// in edge order.
    pub fn to_mermaid(&self) -> (r: String)
        ensures
            r@ == mermaid_text(self@),
    {
        let mut result = String::from_str("```mermaid\nflowchart LR\n");
        let ghost ev = edges_view(self.edges@);
        let mut i: usize = 0;
        while i < self.edges.len()
            invariant
                ev == edges_view(self.edges@),
                i <= self.edges@.len(),
                ev.len() == self.edges@.len(),
                result@ == "```mermaid\nflowchart LR\n"@ + edges_text(ev.take(i as int)),
            decreases self.edges@.len() - i,
        {
            let from_shape = self.edges[i].0.to_mermaid();
            let to_shape = self.edges[i].1.to_mermaid();
            result.append(from_shape.as_str());
            result.append(" --> ");
            result.append(to_shape.as_str());
            result.append("\n");
            proof {
                assert(ev[i as int] == (self.edges@[i as int].0@, self.edges@[i as int].1@));
                assert(ev.take(i + 1).drop_last() =~= ev.take(i as int));
                assert(ev.take(i + 1).last() == ev[i as int]);
                assert(result@ =~= "```mermaid\nflowchart LR\n"@ + edges_text(ev.take(i + 1)));
            }
            i = i + 1;
        }
        result.append("```");
        proof {
            assert(ev.take(ev.len() as int) =~= ev);
            assert(result@ =~= mermaid_text(ev));
        }
        result
    }
}

} // verus!
