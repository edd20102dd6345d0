//! The general guarantees of the graph builder and the renderer, stated and
//! proved over the same specification functions their contracts use.

use vstd::prelude::*;
use crate::ast::{
    NodeView, build_edges, build_edges_prefix, edge_text, edges_for, edges_text, esm_nodes,
    is_reference, keep, keep_edges, mermaid_text, ref_filter, reference_text, resource_node,
};
use crate::cloudformation::{PropertyView, ResourceType, ResourceView};

verus! {

/// A resource whose kind tag agrees with the variant of its configuration.
pub open spec fn wf_resource(r: ResourceView) -> bool {
    match r.properties {
        PropertyView::Lambda { .. } => r.typ == ResourceType::Lambda,
        PropertyView::Sqs { .. } => r.typ == ResourceType::Sqs,
        PropertyView::ApiGateway { .. } => r.typ == ResourceType::ApiGateway,
        PropertyView::EventSourceMapping { .. } => r.typ == ResourceType::EventSourceMapping,
        PropertyView::Other(_) => r.typ == ResourceType::Other,
    }
}

proof fn lemma_ref_filter_membership(resources: Seq<ResourceView>, name: Seq<char>)
    ensures
        forall|n: int|
            0 <= n < ref_filter(resources, name).len() ==> is_reference(
                #[trigger] ref_filter(resources, name)[n],
                name,
            ) && resources.contains(ref_filter(resources, name)[n]),
    decreases resources,
{
    if resources.len() > 0 {
        lemma_ref_filter_membership(resources.drop_last(), name);
        assert forall|n: int| 0 <= n < ref_filter(resources, name).len() implies is_reference(
            #[trigger] ref_filter(resources, name)[n],
            name,
        ) && resources.contains(ref_filter(resources, name)[n]) by {
            let prev = ref_filter(resources.drop_last(), name);
            if n < prev.len() {
                assert(resources.drop_last().contains(prev[n]));
                let k = choose|k: int|
                    0 <= k < resources.drop_last().len() && resources.drop_last()[k] == prev[n];
                assert(resources[k] == prev[n]);
            } else {
                assert(ref_filter(resources, name)[n] == resources.last());
                assert(resources[resources.len() - 1] == resources.last());
            }
        }
    }
}

proof fn lemma_keep_edges_shape(sources: Seq<ResourceView>, target: ResourceView)
    ensures
        forall|n: int|
            0 <= n < keep_edges(sources, target).len() ==> exists|k: int|
                0 <= k < sources.len() && keep(sources[k].typ) && #[trigger] keep_edges(
                    sources,
                    target,
                )[n] == (resource_node(sources[k]), resource_node(target)),
    decreases sources,
{
    if sources.len() > 0 {
        lemma_keep_edges_shape(sources.drop_last(), target);
        assert forall|n: int| 0 <= n < keep_edges(sources, target).len() implies exists|k: int|
            0 <= k < sources.len() && keep(sources[k].typ) && #[trigger] keep_edges(
                sources,
                target,
            )[n] == (resource_node(sources[k]), resource_node(target)) by {
            let prev = keep_edges(sources.drop_last(), target);
            if n < prev.len() {
                let k = choose|k: int|
                    0 <= k < sources.drop_last().len() && keep(sources.drop_last()[k].typ)
                        && prev[n] == (
                        resource_node(sources.drop_last()[k]),
                        resource_node(target),
                    );
                assert(sources[k] == sources.drop_last()[k]);
                assert(keep_edges(sources, target)[n] == prev[n]);
            } else {
                let k = sources.len() - 1;
                assert(keep(sources[k].typ));
                assert(keep_edges(sources, target)[n] == (
                    resource_node(sources[k]),
                    resource_node(target),
                ));
            }
        }
    }
}

/// When the resource resolves as an event source mapping, neither resolved
/// endpoint has kind `t`.
pub open spec fn esm_resolution_avoids(
    resources: Seq<ResourceView>,
    r: ResourceView,
    t: ResourceType,
) -> bool {
    match esm_nodes(r, resources) {
        Some(e) => e.0.typ != t && e.1.typ != t,
        None => true,
    }
}

proof fn lemma_prefix_avoids(resources: Seq<ResourceView>, t: ResourceType, n: int)
    requires
        0 <= n <= resources.len(),
        t != ResourceType::Other ==> forall|k: int|
            0 <= k < resources.len() ==> wf_resource(#[trigger] resources[k]),
        t == ResourceType::Other || t == ResourceType::EventSourceMapping,
        forall|k: int|
            0 <= k < resources.len() ==> esm_resolution_avoids(
                resources,
                #[trigger] resources[k],
                t,
            ),
    ensures
        forall|m: int|
            0 <= m < build_edges_prefix(resources, n).len() ==> (#[trigger] build_edges_prefix(
                resources,
                n,
            )[m]).0.typ != t && build_edges_prefix(resources, n)[m].1.typ != t,
    decreases n,
{
    if n > 0 {
        lemma_prefix_avoids(resources, t, n - 1);
        let r = resources[n - 1];
        let es = edges_for(resources, r);
        let prev = build_edges_prefix(resources, n - 1);
        if keep(r.typ) && r.typ != ResourceType::EventSourceMapping {
            lemma_keep_edges_shape(ref_filter(resources, r.name), r);
            lemma_ref_filter_membership(resources, r.name);
        }
        assert forall|m: int|
            0 <= m < build_edges_prefix(resources, n).len() implies (#[trigger] build_edges_prefix(
            resources,
            n,
        )[m]).0.typ != t && build_edges_prefix(resources, n)[m].1.typ != t by {
            if m < prev.len() {
                assert(build_edges_prefix(resources, n)[m] == prev[m]);
            } else {
                let e = es[m - prev.len()];
                assert(build_edges_prefix(resources, n)[m] == e);
                assert(keep(r.typ));
                if r.typ == ResourceType::EventSourceMapping {
                    assert(esm_resolution_avoids(resources, resources[n - 1], t));
                } else {
                    let sources = ref_filter(resources, r.name);
                    let k = choose|k: int|
                        0 <= k < sources.len() && keep(sources[k].typ) && e == (
                            resource_node(sources[k]),
                            resource_node(r),
                        );
                    if t == ResourceType::EventSourceMapping {
                        // A heuristically matched source carries `Other` or
                        // API-method configuration; well-formedness then pins
                        // its kind, and graph-worthiness rules `Other` out.
                        assert(is_reference(sources[k], r.name));
                        assert(resources.contains(sources[k]));
                        let w = choose|w: int|
                            0 <= w < resources.len() && resources[w] == sources[k];
                        assert(wf_resource(resources[w]));
                        assert(sources[k].typ == ResourceType::ApiGateway);
                    }
                }
            }
        }
    }
}

/// `Other`-kind resources appear in no edge, as source or target, provided
/// no event source mapping resolves to an `Other`-kind endpoint.
pub proof fn lemma_other_never_edge_endpoint(resources: Seq<ResourceView>)
    requires
        forall|k: int|
            0 <= k < resources.len() ==> esm_resolution_avoids(
                resources,
                #[trigger] resources[k],
                ResourceType::Other,
            ),
    ensures
        forall|m: int|
            0 <= m < build_edges(resources).len() ==> (#[trigger] build_edges(resources)[m]).0.typ
                != ResourceType::Other && build_edges(resources)[m].1.typ != ResourceType::Other,
{
    lemma_prefix_avoids(resources, ResourceType::Other, resources.len() as int);
}

/// Event source mappings appear in no edge as an endpoint, provided the
/// resources are well formed and no mapping resolves to an event source
/// mapping; and each one contributes at most one edge.
pub proof fn lemma_esm_never_edge_endpoint(resources: Seq<ResourceView>)
    requires
        forall|k: int| 0 <= k < resources.len() ==> wf_resource(#[trigger] resources[k]),
        forall|k: int|
            0 <= k < resources.len() ==> esm_resolution_avoids(
                resources,
                #[trigger] resources[k],
                ResourceType::EventSourceMapping,
            ),
    ensures
        forall|m: int|
            0 <= m < build_edges(resources).len() ==> (#[trigger] build_edges(resources)[m]).0.typ
                != ResourceType::EventSourceMapping && build_edges(resources)[m].1.typ
                != ResourceType::EventSourceMapping,
        forall|k: int|
            0 <= k < resources.len() && resources[k].typ == ResourceType::EventSourceMapping
                ==> edges_for(resources, #[trigger] resources[k]).len() <= 1,
{
    lemma_prefix_avoids(resources, ResourceType::EventSourceMapping, resources.len() as int);
}

proof fn lemma_ref_filter_contains(resources: Seq<ResourceView>, name: Seq<char>, i: int)
    requires
        0 <= i < resources.len(),
        is_reference(resources[i], name),
    ensures
        ref_filter(resources, name).contains(resources[i]),
    decreases resources,
{
    if i == resources.len() - 1 {
        let filtered = ref_filter(resources, name);
        let prev = ref_filter(resources.drop_last(), name);
        assert(resources.last() == resources[i]);
        assert(filtered[prev.len() as int] == resources[i]);
    } else {
        lemma_ref_filter_contains(resources.drop_last(), name, i);
        let prev = ref_filter(resources.drop_last(), name);
        let k = choose|k: int| 0 <= k < prev.len() && prev[k] == resources.drop_last()[i];
        assert(resources.drop_last()[i] == resources[i]);
        assert(ref_filter(resources, name)[k] == resources[i]);
    }
}

proof fn lemma_keep_edges_contains(sources: Seq<ResourceView>, target: ResourceView, k: int)
    requires
        0 <= k < sources.len(),
        keep(sources[k].typ),
    ensures
        keep_edges(sources, target).contains(
            (resource_node(sources[k]), resource_node(target)),
        ),
    decreases sources,
{
    let edges = keep_edges(sources, target);
    let prev = keep_edges(sources.drop_last(), target);
    if k == sources.len() - 1 {
        assert(sources.last() == sources[k]);
        assert(edges[prev.len() as int] == (resource_node(sources[k]), resource_node(target)));
    } else {
        lemma_keep_edges_contains(sources.drop_last(), target, k);
        let e = (resource_node(sources.drop_last()[k]), resource_node(target));
        let m = choose|m: int| 0 <= m < prev.len() && prev[m] == e;
        assert(sources.drop_last()[k] == sources[k]);
        assert(edges[m] == e);
    }
}

proof fn lemma_prefix_contains_edge(
    resources: Seq<ResourceView>,
    j: int,
    n: int,
    e: (NodeView, NodeView),
)
    requires
        0 <= j < n <= resources.len(),
        edges_for(resources, resources[j]).contains(e),
    ensures
        build_edges_prefix(resources, n).contains(e),
    decreases n,
{
    let prev = build_edges_prefix(resources, n - 1);
    if j == n - 1 {
        let m = choose|m: int|
            0 <= m < edges_for(resources, resources[j]).len() && edges_for(
                resources,
                resources[j],
            )[m] == e;
        assert(build_edges_prefix(resources, n)[prev.len() + m] == e);
    } else {
        lemma_prefix_contains_edge(resources, j, n - 1, e);
        let m = choose|m: int| 0 <= m < prev.len() && prev[m] == e;
        assert(build_edges_prefix(resources, n)[m] == e);
    }
}

/// When an API method's integration target textually contains the name of a
/// graph-worthy resource, the edge from the method to that resource is in
/// the graph.
pub proof fn lemma_api_method_reference_edge(resources: Seq<ResourceView>, i: int, j: int)
    requires
        0 <= i < resources.len(),
        0 <= j < resources.len(),
        resources[i].typ == ResourceType::ApiGateway,
        resources[i].properties is ApiGateway,
        is_reference(resources[i], resources[j].name),
        keep(resources[j].typ),
        resources[j].typ != ResourceType::EventSourceMapping,
    ensures
        build_edges(resources).contains(
            (resource_node(resources[i]), resource_node(resources[j])),
        ),
{
    let target = resources[j];
    let sources = ref_filter(resources, target.name);
    lemma_ref_filter_contains(resources, target.name, i);
    let k = choose|k: int| 0 <= k < sources.len() && sources[k] == resources[i];
    lemma_keep_edges_contains(sources, target, k);
    assert(edges_for(resources, target) == keep_edges(sources, target));
    lemma_prefix_contains_edge(
        resources,
        j,
        resources.len() as int,
        (resource_node(resources[i]), resource_node(target)),
    );
}

proof fn lemma_edges_text_split(edges: Seq<(NodeView, NodeView)>, n: int)
    requires
        0 <= n <= edges.len(),
    ensures
        edges_text(edges) == edges_text(edges.take(n)) + edges_text(edges.skip(n)),
    decreases edges,
{
    if n == edges.len() {
        assert(edges.take(n) =~= edges);
        assert(edges.skip(n) =~= Seq::empty());
        assert(edges_text(edges) =~= edges_text(edges.take(n)) + edges_text(edges.skip(n)));
    } else {
        let dl = edges.drop_last();
        lemma_edges_text_split(dl, n);
        assert(edges.take(n) =~= dl.take(n));
        assert(edges.skip(n).drop_last() =~= dl.skip(n));
        assert(edges.skip(n).last() == edges.last());
        assert(edges.skip(n).len() > 0);
        assert(edges_text(edges.skip(n)) == edges_text(dl.skip(n)) + edge_text(edges.last()));
        assert(edges_text(edges) =~= edges_text(edges.take(n)) + edges_text(edges.skip(n)));
    }
}

/// Rendering is order-preserving: in the rendered block, the line of the
/// `n`th edge stands exactly after the opening marker and the lines of the
/// `n` edges before it, and is followed by the lines of the remaining edges
/// and the closing marker.
pub proof fn lemma_render_order_preserving(edges: Seq<(NodeView, NodeView)>, n: int)
    requires
        0 <= n < edges.len(),
    ensures
        mermaid_text(edges) == "```mermaid\nflowchart LR\n"@ + edges_text(edges.take(n))
            + edge_text(edges[n]) + edges_text(edges.skip(n + 1)) + "```"@,
{
    lemma_edges_text_split(edges, n);
    lemma_edges_text_split(edges.skip(n), 1);
    let single = edges.skip(n).take(1);
    assert(single.drop_last() =~= Seq::empty());
    assert(single.last() == edges[n]);
    assert(edges_text(single) == edges_text(Seq::empty()) + edge_text(edges[n]));
    assert(edges_text(single) =~= edge_text(edges[n]));
    assert(edges.skip(n).skip(1) =~= edges.skip(n + 1));
    assert(mermaid_text(edges) =~= "```mermaid\nflowchart LR\n"@ + edges_text(edges.take(n))
        + edge_text(edges[n]) + edges_text(edges.skip(n + 1)) + "```"@);
}

/// Rendering is a function of the edge list alone: any two texts that meet
/// the renderer's contract for the same edge list are identical. With the
/// renderer's postcondition, two calls on the same graph yield the same
/// text.
pub proof fn lemma_render_deterministic(
    edges: Seq<(NodeView, NodeView)>,
    r1: Seq<char>,
    r2: Seq<char>,
)
    requires
        r1 == mermaid_text(edges),
        r2 == mermaid_text(edges),
    ensures
        r1 == r2,
{
}

} // verus!
