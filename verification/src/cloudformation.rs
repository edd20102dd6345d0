//! The typed resource model of a template: a named collection of resources,
//! each carrying a kind and kind-specific configuration.

use vstd::prelude::*;
use crate::json::{JsonValue, JsonView, json_view};
use crate::text::str_eq;

verus! {

/// The unique identifier of a resource within its template.
#[derive(Debug, PartialEq)]
pub struct Name(pub String);

impl View for Name {
    type V = Seq<char>;

    open spec fn view(&self) -> Seq<char> {
        self.0@
    }
}

impl Clone for Name {
    fn clone(&self) -> (res: Self)
        ensures
            res@ == self@,
    {
        Name(self.0.clone())
    }
}

/// The closed set of resource kinds the graph logic distinguishes.
#[derive(Debug, Clone, Copy, PartialEq, Eq, Structural)]
pub enum ResourceType {
    Lambda,
    Sqs,
    ApiGateway,
    EventSourceMapping,
    Other,
}

/// Kind-specific configuration, carrying only the fields the graph logic
/// reads.
#[derive(Debug, PartialEq)]
pub enum Property {
    Lambda { function_name: String, architectures: Vec<String> },
    Sqs { queue_name: String },
    ApiGateway { http_method: String, integration: JsonValue },
    EventSourceMapping { event_source_arn: JsonValue, function_name: JsonValue },
    Other(JsonValue),
}

/// The mathematical shape of a `Property`.
pub enum PropertyView {
    Lambda { function_name: Seq<char>, architectures: Seq<Seq<char>> },
    Sqs { queue_name: Seq<char> },
    ApiGateway { http_method: Seq<char>, integration: JsonView },
    EventSourceMapping { event_source_arn: JsonView, function_name: JsonView },
    Other(JsonView),
}

pub open spec fn strings_view(s: Seq<String>) -> Seq<Seq<char>> {
    Seq::new(s.len(), |i: int| s[i]@)
}

impl View for Property {
    type V = PropertyView;

    open spec fn view(&self) -> PropertyView {
        match self {
            Property::Lambda { function_name, architectures } => PropertyView::Lambda {
                function_name: function_name@,
                architectures: strings_view(architectures@),
            },
            Property::Sqs { queue_name } => PropertyView::Sqs { queue_name: queue_name@ },
            Property::ApiGateway { http_method, integration } => PropertyView::ApiGateway {
                http_method: http_method@,
                integration: json_view(*integration),
            },
            Property::EventSourceMapping { event_source_arn, function_name } => (
            PropertyView::EventSourceMapping {
                event_source_arn: json_view(*event_source_arn),
                function_name: json_view(*function_name),
            }),
            Property::Other(v) => PropertyView::Other(json_view(*v)),
        }
    }
}

fn clone_strings(v: &Vec<String>) -> (res: Vec<String>)
    ensures
        res@ == v@,
{
    let mut res: Vec<String> = Vec::new();
    let mut i: usize = 0;
    while i < v.len()
        invariant
            i <= v@.len(),
            res@ == v@.take(i as int),
        decreases v@.len() - i,
    {
        res.push(v[i].clone());
        proof {
            assert(v@.take(i + 1) =~= v@.take(i as int).push(v@[i as int]));
        }
        i = i + 1;
    }
    proof {
        assert(v@.take(v@.len() as int) =~= v@);
    }
    res
}

impl Clone for Property {
    fn clone(&self) -> (res: Self)
        ensures
            res@ == self@,
    {
        match self {
            Property::Lambda { function_name, architectures } => Property::Lambda {
                function_name: function_name.clone(),
                architectures: clone_strings(architectures),
            },
            Property::Sqs { queue_name } => Property::Sqs { queue_name: queue_name.clone() },
            Property::ApiGateway { http_method, integration } => Property::ApiGateway {
                http_method: http_method.clone(),
                integration: integration.clone(),
            },
            Property::EventSourceMapping { event_source_arn, function_name } => (
            Property::EventSourceMapping {
                event_source_arn: event_source_arn.clone(),
                function_name: function_name.clone(),
            }),
            Property::Other(v) => Property::Other(v.clone()),
        }
    }
}

/// One declared resource: its name, its kind and its configuration.
#[derive(Debug, PartialEq)]
pub struct Resource {
    pub name: Name,
    pub typ: ResourceType,
    pub properties: Property,
}

/// The mathematical shape of a `Resource`.
pub struct ResourceView {
    pub name: Seq<char>,
    pub typ: ResourceType,
    pub properties: PropertyView,
}

impl View for Resource {
    type V = ResourceView;

    open spec fn view(&self) -> ResourceView {
        ResourceView { name: self.name@, typ: self.typ, properties: self.properties@ }
    }
}

impl Clone for Resource {
    fn clone(&self) -> (res: Self)
        ensures
            res@ == self@,
    {
        Resource {
            name: self.name.clone(),
            typ: self.typ,
            properties: self.properties.clone(),
        }
    }
}

pub open spec fn resources_view(s: Seq<Resource>) -> Seq<ResourceView> {
    Seq::new(s.len(), |i: int| s[i]@)
}

/// An ordered collection of resources, as parsed from one template document.
#[derive(Debug, PartialEq)]
pub struct Template {
    pub resources: Vec<Resource>,
}

impl View for Template {
    type V = Seq<ResourceView>;

    open spec fn view(&self) -> Seq<ResourceView> {
        resources_view(self.resources@)
    }
}

/// The kind a raw template type string is classified into. Only the three
/// directly recognized type strings map to a specific kind; anything else,
/// event source mappings included, classifies as `Other` here.
pub open spec fn spec_resource_type(raw_type: Seq<char>) -> ResourceType {
    if raw_type == "AWS::Lambda::Function"@ {
        ResourceType::Lambda
    } else if raw_type == "AWS::SQS::Queue"@ {
        ResourceType::Sqs
    } else if raw_type == "AWS::ApiGateway::Method"@ {
        ResourceType::ApiGateway
    } else {
        ResourceType::Other
    }
}

/// Classifies a raw template type string into a resource kind.
pub fn determine_resource_type(raw_type: &str) -> (typ: ResourceType)
    ensures
        typ == spec_resource_type(raw_type@),
{
    if str_eq(raw_type, "AWS::Lambda::Function") {
        ResourceType::Lambda
    } else if str_eq(raw_type, "AWS::SQS::Queue") {
        ResourceType::Sqs
    } else if str_eq(raw_type, "AWS::ApiGateway::Method") {
        ResourceType::ApiGateway
    } else {
        ResourceType::Other
    }
}

} // verus!
