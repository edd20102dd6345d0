use cf_to_mermaid::ast::{Node, AST};
use cf_to_mermaid::cloudformation::{Name, Property, Resource, ResourceType, Template};
use cf_to_mermaid::json::JsonValue;

#[test]
fn test_ast_construction_single_edge() {
    let node1 = Node {
        name: Name("name1".to_string()),
        typ: ResourceType::Sqs,
        properties: Property::Sqs {
            queue_name: "queue1".to_string(),
        },
    };
    let node2 = Node {
        name: Name("name2".to_string()),
        typ: ResourceType::Lambda,
        properties: Property::Lambda {
            function_name: "lambda1".to_string(),
            architectures: vec!["arm64".to_string()],
        },
    };
    let ast = AST {
        edges: vec![(node1.clone(), node2.clone())],
    };

    assert_eq!(ast, AST { edges: vec![(node1, node2)] });
}

#[test]
fn test_ast_construction_multiple_edges() {
    let sqs_node = Node {
        name: Name("queue1".to_string()),
        typ: ResourceType::Sqs,
        properties: Property::Sqs {
            queue_name: "queue1".to_string(),
        },
    };
    let lambda_node1 = Node {
        name: Name("lambda1".to_string()),
        typ: ResourceType::Lambda,
        properties: Property::Lambda {
            function_name: "lambda1".to_string(),
            architectures: vec!["arm64".to_string()],
        },
    };
    let lambda_node2 = Node {
        name: Name("lambda2".to_string()),
        typ: ResourceType::Lambda,
        properties: Property::Lambda {
            function_name: "lambda2".to_string(),
            architectures: vec!["arm64".to_string()],
        },
    };

    let ast = AST {
        edges: vec![
            (sqs_node.clone(), lambda_node1.clone()),
            (sqs_node.clone(), lambda_node2.clone()),
        ],
    };

    assert_eq!(
        ast,
        AST {
            edges: vec![
                (sqs_node.clone(), lambda_node1),
                (sqs_node, lambda_node2)
            ]
        }
    );
}

#[test]
fn test_ast_construction_chain_edges() {
    let api_node = Node {
        name: Name("api".to_string()),
        typ: ResourceType::ApiGateway,
        properties: Property::ApiGateway {
            http_method: "POST".to_string(),
            integration: JsonValue::Object(vec![]),
        },
    };
    let lambda_node = Node {
        name: Name("lambda".to_string()),
        typ: ResourceType::Lambda,
        properties: Property::Lambda {
            function_name: "lambda".to_string(),
            architectures: vec!["arm64".to_string()],
        },
    };
    let sqs_node = Node {
        name: Name("queue".to_string()),
        typ: ResourceType::Sqs,
        properties: Property::Sqs {
            queue_name: "queue".to_string(),
        },
    };

    let ast = AST {
        edges: vec![
            (api_node.clone(), lambda_node.clone()),
            (lambda_node.clone(), sqs_node.clone()),
        ],
    };

    assert_eq!(
        ast,
        AST {
            edges: vec![
                (api_node, lambda_node.clone()),
                (lambda_node, sqs_node)
            ]
        }
    );
}

#[test]
fn test_ast_from_template() {
    let template = Template {
        resources: vec![
            Resource {
                name: Name("mylambda".to_string()),
                typ: ResourceType::Lambda,
                properties: Property::Lambda {
                    function_name: "mylambda".to_string(),
                    architectures: vec!["arm64".to_string()],
                },
            },
            Resource {
                name: Name("mygateway".to_string()),
                typ: ResourceType::ApiGateway,
                properties: Property::ApiGateway {
                    http_method: "POST".to_string(),
                    integration: JsonValue::Str("mylambda".to_string()),
                },
            },
        ],
    };

    let ast = AST::from(template);

    let expected_gateway_node = Node {
        name: Name("mygateway".to_string()),
        typ: ResourceType::ApiGateway,
        properties: Property::ApiGateway {
            http_method: "POST".to_string(),
            integration: JsonValue::Str("mylambda".to_string()),
        },
    };
    let expected_lambda_node = Node {
        name: Name("mylambda".to_string()),
        typ: ResourceType::Lambda,
        properties: Property::Lambda {
            function_name: "mylambda".to_string(),
            architectures: vec!["arm64".to_string()],
        },
    };

    assert_eq!(
        ast,
        AST {
            edges: vec![(expected_gateway_node, expected_lambda_node)]
        }
    );
}

#[test]
fn test_to_mermaid_with_single_edge() {
    let sqs_node = Node {
        name: Name("myqueue".to_string()),
        typ: ResourceType::Sqs,
        properties: Property::Sqs {
            queue_name: "myqueue".to_string(),
        },
    };
    let lambda_node = Node {
        name: Name("mylambda".to_string()),
        typ: ResourceType::Lambda,
        properties: Property::Lambda {
            function_name: "mylambda".to_string(),
            architectures: vec!["arm64".to_string()],
        },
    };

    let ast = AST {
        edges: vec![(sqs_node, lambda_node)],
    };

    let mermaid_output = ast.to_mermaid();
    let expected_output = "```mermaid\nflowchart LR\nmyqueue((myqueue)) --> mylambda([mylambda])\n```";

    assert_eq!(mermaid_output, expected_output);
}

#[test]
fn test_empty_template() {
    let template = Template { resources: vec![] };

    let ast = AST::from(template);

    assert_eq!(ast, AST { edges: vec![] });

    let mermaid_output = ast.to_mermaid();
    let expected_output = "```mermaid\nflowchart LR\n```";

    assert_eq!(mermaid_output, expected_output);
}

#[test]
fn test_fan_in_pattern() {
    let template = Template {
        resources: vec![
            Resource {
                name: Name("mylambda".to_string()),
                typ: ResourceType::Lambda,
                properties: Property::Lambda {
                    function_name: "mylambda".to_string(),
                    architectures: vec!["arm64".to_string()],
                },
            },
            Resource {
                name: Name("myapi".to_string()),
                typ: ResourceType::ApiGateway,
                properties: Property::ApiGateway {
                    http_method: "POST".to_string(),
                    integration: JsonValue::Str("mylambda".to_string()),
                },
            },
            Resource {
                name: Name("myqueue".to_string()),
                typ: ResourceType::Sqs,
                properties: Property::Sqs {
                    queue_name: "myqueue".to_string(),
                },
            },
        ],
    };

    let ast = AST::from(template);

    let expected_lambda_node = Node {
        name: Name("mylambda".to_string()),
        typ: ResourceType::Lambda,
        properties: Property::Lambda {
            function_name: "mylambda".to_string(),
            architectures: vec!["arm64".to_string()],
        },
    };
    let expected_api_node = Node {
        name: Name("myapi".to_string()),
        typ: ResourceType::ApiGateway,
        properties: Property::ApiGateway {
            http_method: "POST".to_string(),
            integration: JsonValue::Str("mylambda".to_string()),
        },
    };

    assert_eq!(
        ast,
        AST {
            edges: vec![(expected_api_node, expected_lambda_node)]
        }
    );

    let mermaid_output = ast.to_mermaid();
    let expected_output = "```mermaid\nflowchart LR\nmyapi[[myapi]] --> mylambda([mylambda])\n```";

    assert_eq!(mermaid_output, expected_output);
}

#[test]
fn test_mixed_resource_types_filtering() {
    let template = Template {
        resources: vec![
            Resource {
                name: Name("mylambda".to_string()),
                typ: ResourceType::Lambda,
                properties: Property::Lambda {
                    function_name: "mylambda".to_string(),
                    architectures: vec!["arm64".to_string()],
                },
            },
            Resource {
                name: Name("myapi".to_string()),
                typ: ResourceType::ApiGateway,
                properties: Property::ApiGateway {
                    http_method: "POST".to_string(),
                    integration: JsonValue::Str("mylambda".to_string()),
                },
            },
            Resource {
                name: Name("unsupported".to_string()),
                typ: ResourceType::Other,
                properties: Property::Other(JsonValue::Str("some value".to_string())),
            },
        ],
    };

    let ast = AST::from(template);

    let expected_lambda_node = Node {
        name: Name("mylambda".to_string()),
        typ: ResourceType::Lambda,
        properties: Property::Lambda {
            function_name: "mylambda".to_string(),
            architectures: vec!["arm64".to_string()],
        },
    };
    let expected_api_node = Node {
        name: Name("myapi".to_string()),
        typ: ResourceType::ApiGateway,
        properties: Property::ApiGateway {
            http_method: "POST".to_string(),
            integration: JsonValue::Str("mylambda".to_string()),
        },
    };

    assert_eq!(
        ast,
        AST {
            edges: vec![(expected_api_node, expected_lambda_node)]
        }
    );

    let mermaid_output = ast.to_mermaid();
    let expected_output = "```mermaid\nflowchart LR\nmyapi[[myapi]] --> mylambda([mylambda])\n```";

    assert_eq!(mermaid_output, expected_output);
}

#[test]
fn test_no_dependencies() {
    let template = Template {
        resources: vec![
            Resource {
                name: Name("lambda1".to_string()),
                typ: ResourceType::Lambda,
                properties: Property::Lambda {
                    function_name: "lambda1".to_string(),
                    architectures: vec!["arm64".to_string()],
                },
            },
            Resource {
                name: Name("lambda2".to_string()),
                typ: ResourceType::Lambda,
                properties: Property::Lambda {
                    function_name: "lambda2".to_string(),
                    architectures: vec!["arm64".to_string()],
                },
            },
            Resource {
                name: Name("queue1".to_string()),
                typ: ResourceType::Sqs,
                properties: Property::Sqs {
                    queue_name: "queue1".to_string(),
                },
            },
        ],
    };

    let ast = AST::from(template);

    assert_eq!(ast, AST { edges: vec![] });

    let mermaid_output = ast.to_mermaid();
    let expected_output = "```mermaid\nflowchart LR\n```";

    assert_eq!(mermaid_output, expected_output);
}

#[test]
fn test_event_source_mapping() {
    let template = Template {
        resources: vec![
            Resource {
                name: Name("MyQueue".to_string()),
                typ: ResourceType::Sqs,
                properties: Property::Sqs {
                    queue_name: "MyQueue".to_string(),
                },
            },
            Resource {
                name: Name("MyLambda".to_string()),
                typ: ResourceType::Lambda,
                properties: Property::Lambda {
                    function_name: "MyLambda".to_string(),
                    architectures: vec!["arm64".to_string()],
                },
            },
            Resource {
                name: Name("MyEventSourceMapping".to_string()),
                typ: ResourceType::EventSourceMapping,
                properties: Property::EventSourceMapping {
                    event_source_arn: JsonValue::Object(vec![(
                        "Fn::GetAtt".to_string(),
                        JsonValue::Array(vec![
                            JsonValue::Str("MyQueue".to_string()),
                            JsonValue::Str("Arn".to_string()),
                        ]),
                    )]),
                    function_name: JsonValue::Object(vec![(
                        "Ref".to_string(),
                        JsonValue::Str("MyLambda".to_string()),
                    )]),
                },
            },
        ],
    };

    let ast = AST::from(template);

    let expected_queue_node = Node {
        name: Name("MyQueue".to_string()),
        typ: ResourceType::Sqs,
        properties: Property::Sqs {
            queue_name: "MyQueue".to_string(),
        },
    };
    let expected_lambda_node = Node {
        name: Name("MyLambda".to_string()),
        typ: ResourceType::Lambda,
        properties: Property::Lambda {
            function_name: "MyLambda".to_string(),
            architectures: vec!["arm64".to_string()],
        },
    };

    // Should create SQS -> Lambda edge from EventSourceMapping
    assert_eq!(
        ast,
        AST {
            edges: vec![(expected_queue_node, expected_lambda_node)]
        }
    );

    let mermaid_output = ast.to_mermaid();
    let expected_output = "```mermaid\nflowchart LR\nMyQueue((MyQueue)) --> MyLambda([MyLambda])\n```";

    assert_eq!(mermaid_output, expected_output);
}

#[test]
fn test_to_mermaid_with_multiple_edges() {
    let api_node = Node {
        name: Name("myapi".to_string()),
        typ: ResourceType::ApiGateway,
        properties: Property::ApiGateway {
            http_method: "POST".to_string(),
            integration: JsonValue::Object(vec![]),
        },
    };
    let lambda_node = Node {
        name: Name("mylambda".to_string()),
        typ: ResourceType::Lambda,
        properties: Property::Lambda {
            function_name: "mylambda".to_string(),
            architectures: vec!["arm64".to_string()],
        },
    };
    let sqs_node = Node {
        name: Name("myqueue".to_string()),
        typ: ResourceType::Sqs,
        properties: Property::Sqs {
            queue_name: "myqueue".to_string(),
        },
    };

    let ast = AST {
        edges: vec![
            (api_node, lambda_node.clone()),
            (lambda_node, sqs_node)
        ],
    };

    let mermaid_output = ast.to_mermaid();
    let expected_output = "```mermaid\nflowchart LR\nmyapi[[myapi]] --> mylambda([mylambda])\nmylambda([mylambda]) --> myqueue((myqueue))\n```";

    assert_eq!(mermaid_output, expected_output);
}

#[test]
fn test_unresolvable_event_source_mapping() {
    // An event source mapping whose function reference names a resource that
    // is absent from the template contributes no edge, and nothing fails.
    let template = Template {
        resources: vec![
            Resource {
                name: Name("MyQueue".to_string()),
                typ: ResourceType::Sqs,
                properties: Property::Sqs {
                    queue_name: "MyQueue".to_string(),
                },
            },
            Resource {
                name: Name("MyEventSourceMapping".to_string()),
                typ: ResourceType::EventSourceMapping,
                properties: Property::EventSourceMapping {
                    event_source_arn: JsonValue::Object(vec![(
                        "Fn::GetAtt".to_string(),
                        JsonValue::Array(vec![
                            JsonValue::Str("MyQueue".to_string()),
                            JsonValue::Str("Arn".to_string()),
                        ]),
                    )]),
                    function_name: JsonValue::Object(vec![(
                        "Ref".to_string(),
                        JsonValue::Str("MissingLambda".to_string()),
                    )]),
                },
            },
        ],
    };

    let ast = AST::from(template);

    assert_eq!(ast, AST { edges: vec![] });
    assert_eq!(ast.to_mermaid(), "```mermaid\nflowchart LR\n```");
}

#[test]
fn test_esm_binds_resources_without_kind_check() {
    // Structural extraction resolves purely by name: the kinds of the two
    // named resources are not checked, so a mapping may bind a resource of
    // unrecognized kind, which then renders as an empty shape.
    let template = Template {
        resources: vec![
            Resource {
                name: Name("helper".to_string()),
                typ: ResourceType::Other,
                properties: Property::Other(JsonValue::Null),
            },
            Resource {
                name: Name("fn1".to_string()),
                typ: ResourceType::Lambda,
                properties: Property::Lambda {
                    function_name: "fn1".to_string(),
                    architectures: vec!["arm64".to_string()],
                },
            },
            Resource {
                name: Name("binding".to_string()),
                typ: ResourceType::EventSourceMapping,
                properties: Property::EventSourceMapping {
                    event_source_arn: JsonValue::Object(vec![(
                        "Fn::GetAtt".to_string(),
                        JsonValue::Array(vec![
                            JsonValue::Str("helper".to_string()),
                            JsonValue::Str("Arn".to_string()),
                        ]),
                    )]),
                    function_name: JsonValue::Object(vec![(
                        "Ref".to_string(),
                        JsonValue::Str("fn1".to_string()),
                    )]),
                },
            },
        ],
    };

    let ast = AST::from(template);

    assert_eq!(ast.edges.len(), 1);
    assert_eq!(ast.edges[0].0.name, Name("helper".to_string()));
    assert_eq!(ast.edges[0].0.typ, ResourceType::Other);
    assert_eq!(ast.edges[0].1.name, Name("fn1".to_string()));
    assert_eq!(
        ast.to_mermaid(),
        "```mermaid\nflowchart LR\n --> fn1([fn1])\n```"
    );
}

#[test]
fn test_render_twice_identical() {
    // Rendering the same edge set twice yields identical text.
    let sqs_node = Node {
        name: Name("myqueue".to_string()),
        typ: ResourceType::Sqs,
        properties: Property::Sqs {
            queue_name: "myqueue".to_string(),
        },
    };
    let lambda_node = Node {
        name: Name("mylambda".to_string()),
        typ: ResourceType::Lambda,
        properties: Property::Lambda {
            function_name: "mylambda".to_string(),
            architectures: vec!["arm64".to_string()],
        },
    };
    let ast = AST {
        edges: vec![(sqs_node, lambda_node)],
    };

    assert_eq!(ast.to_mermaid(), ast.to_mermaid());
}

#[test]
fn test_substring_false_positive_match() {
    // The heuristic is a plain substring test: a name occurring inside
    // unrelated text still produces an edge.
    let template = Template {
        resources: vec![
            Resource {
                name: Name("lambda".to_string()),
                typ: ResourceType::Lambda,
                properties: Property::Lambda {
                    function_name: "lambda".to_string(),
                    architectures: vec!["arm64".to_string()],
                },
            },
            Resource {
                name: Name("myapi".to_string()),
                typ: ResourceType::ApiGateway,
                properties: Property::ApiGateway {
                    http_method: "GET".to_string(),
                    integration: JsonValue::Str("notmylambdaxx".to_string()),
                },
            },
        ],
    };

    let ast = AST::from(template);

    assert_eq!(ast.edges.len(), 1);
    assert_eq!(ast.edges[0].0.name, Name("myapi".to_string()));
    assert_eq!(ast.edges[0].1.name, Name("lambda".to_string()));
}
