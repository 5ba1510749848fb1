use seishin::render_graph::{
    default_frame_render_graph, NodeLabel, RenderGraph, RenderGraphError, RenderGraphPasses,
    RenderGraphRunner,
};

#[test]
fn execution_order_respects_edges_and_is_deterministic() {
    let mut graph = RenderGraph::new();

    graph.add_node("extract").unwrap();
    graph.add_node("prepare").unwrap();
    graph.add_node("draw").unwrap();
    graph.add_node("cleanup").unwrap();
    graph.add_node_edge("extract", "prepare").unwrap();
    graph.add_node_edge("prepare", "draw").unwrap();

    let order = graph.execution_order().unwrap();

    assert_eq!(
        order,
        vec![
            NodeLabel::from("cleanup"),
            NodeLabel::from("extract"),
            NodeLabel::from("prepare"),
            NodeLabel::from("draw"),
        ]
    );
}

#[test]
fn add_node_edge_reports_missing_nodes() {
    let mut graph = RenderGraph::new();
    graph.add_node("extract").unwrap();

    let error = graph.add_node_edge("extract", "prepare").unwrap_err();

    assert_eq!(error, RenderGraphError::MissingNode(NodeLabel::from("prepare")));
}

#[test]
fn duplicate_nodes_and_edges_are_controlled_errors() {
    let mut graph = RenderGraph::new();
    graph.add_node("extract").unwrap();
    graph.add_node("prepare").unwrap();
    graph.add_node_edge("extract", "prepare").unwrap();

    assert_eq!(
        graph.add_node("extract").unwrap_err(),
        RenderGraphError::DuplicateNode(NodeLabel::from("extract"))
    );
    assert_eq!(
        graph.add_node_edge("extract", "prepare").unwrap_err(),
        RenderGraphError::DuplicateEdge {
            from: NodeLabel::from("extract"),
            to: NodeLabel::from("prepare"),
        }
    );
}

#[test]
fn remove_node_removes_incident_edges_and_contains_tracks_nodes() {
    let mut graph = RenderGraph::new();
    graph.add_node("extract").unwrap();
    graph.add_node("prepare").unwrap();
    graph.add_node_edge("extract", "prepare").unwrap();

    assert!(graph.contains("prepare"));
    graph.remove_node("prepare").unwrap();

    assert!(!graph.contains("prepare"));
    assert_eq!(graph.execution_order().unwrap(), vec![NodeLabel::from("extract")]);
}

#[test]
fn remove_node_edge_reports_missing_edges() {
    let mut graph = RenderGraph::new();
    graph.add_node("extract").unwrap();
    graph.add_node("prepare").unwrap();

    let error = graph.remove_node_edge("extract", "prepare").unwrap_err();

    assert_eq!(
        error,
        RenderGraphError::MissingEdge {
            from: NodeLabel::from("extract"),
            to: NodeLabel::from("prepare"),
        }
    );
}

#[test]
fn execution_order_reports_cycles() {
    let mut graph = RenderGraph::new();
    graph.add_node("a").unwrap();
    graph.add_node("b").unwrap();
    graph.add_node_edge("a", "b").unwrap();
    graph.add_node_edge("b", "a").unwrap();

    assert_eq!(graph.execution_order().unwrap_err(), RenderGraphError::Cycle);
}

#[test]
fn runner_visits_nodes_in_execution_order() {
    let mut graph = RenderGraph::new();
    graph.add_node("extract").unwrap();
    graph.add_node("prepare").unwrap();
    graph.add_node("draw").unwrap();
    graph.add_node_edge("extract", "prepare").unwrap();
    graph.add_node_edge("prepare", "draw").unwrap();

    let mut visited = Vec::new();
    RenderGraphRunner::new()
        .run(&graph, |label| visited.push(label.clone()))
        .unwrap();

    assert_eq!(
        visited,
        vec![
            NodeLabel::from("extract"),
            NodeLabel::from("prepare"),
            NodeLabel::from("draw"),
        ]
    );
}

#[test]
fn default_frame_render_graph_orders_reset_world_extract_ui_and_user_render() {
    let graph = default_frame_render_graph();

    assert_eq!(
        graph.execution_order().expect("frame graph order"),
        vec![
            NodeLabel::from("reset"),
            NodeLabel::from("extract_world"),
            NodeLabel::from("extract_ui"),
            NodeLabel::from("user_render"),
        ]
    );
}

#[test]
fn execution_order_breaks_ties_by_label_order() {
    let mut graph = RenderGraph::new();
    graph.add_node("zeta").unwrap();
    graph.add_node("alpha").unwrap();
    graph.add_node("mid").unwrap();
    graph.add_node_edge("zeta", "alpha").unwrap();

    assert_eq!(
        graph.execution_order().unwrap(),
        vec![NodeLabel::from("mid"), NodeLabel::from("zeta"), NodeLabel::from("alpha")]
    );
}

#[test]
fn runner_refuses_cyclic_graph_before_running_anything() {
    let mut graph = RenderGraph::new();
    graph.add_node("a").unwrap();
    graph.add_node("b").unwrap();
    graph.add_node_edge("a", "b").unwrap();
    graph.add_node_edge("b", "a").unwrap();

    let mut visited = Vec::new();
    let error = RenderGraphRunner::new()
        .run(&graph, |label| visited.push(label.clone()))
        .unwrap_err();

    assert_eq!(error, RenderGraphError::Cycle);
    assert!(visited.is_empty());
}

#[test]
fn removing_a_node_that_is_not_there_is_an_error() {
    let mut graph = RenderGraph::new();
    assert_eq!(
        graph.remove_node("ghost").unwrap_err(),
        RenderGraphError::MissingNode(NodeLabel::from("ghost"))
    );
}

#[test]
fn render_graph_error_messages_name_the_labels() {
    let error = RenderGraphError::MissingNode(NodeLabel::from("draw"));
    assert!(error.message().contains("draw"));
}

type Pass = Box<dyn FnMut(&NodeLabel, &mut Vec<String>) -> Result<(), RenderGraphError>>;

fn run_scheduled(
    graph: &RenderGraph,
    resources: &mut Vec<String>,
    passes: &mut RenderGraphPasses<Pass>,
) -> Result<(), RenderGraphError> {
    let schedule = passes.schedule(graph)?;
    for (position, index) in schedule.passes.iter().enumerate() {
        let label = &schedule.order[position];
        (passes.pass_mut(*index))(label, resources)?;
    }
    match schedule.missing {
        Some(position) => Err(RenderGraphError::MissingPass(schedule.order[position].clone())),
        None => Ok(()),
    }
}

fn recording_pass() -> Pass {
    Box::new(|label: &NodeLabel, log: &mut Vec<String>| {
        log.push(label.as_str().to_string());
        Ok(())
    })
}

#[test]
fn runner_executes_registered_passes_with_shared_resources() {
    let mut graph = RenderGraph::new();
    graph.add_node("extract").unwrap();
    graph.add_node("draw").unwrap();
    graph.add_node_edge("extract", "draw").unwrap();
    let mut resources: Vec<String> = Vec::new();
    let mut passes: RenderGraphPasses<Pass> = RenderGraphPasses::new();

    passes.add("extract", recording_pass()).unwrap();
    passes.add("draw", recording_pass()).unwrap();

    run_scheduled(&graph, &mut resources, &mut passes).unwrap();

    assert_eq!(resources, vec!["extract".to_string(), "draw".to_string()]);
}

#[test]
fn runner_reports_missing_registered_pass() {
    let mut graph = RenderGraph::new();
    graph.add_node("draw").unwrap();
    let mut resources: Vec<String> = Vec::new();
    let mut passes: RenderGraphPasses<Pass> = RenderGraphPasses::new();

    let error = run_scheduled(&graph, &mut resources, &mut passes).unwrap_err();

    assert_eq!(error, RenderGraphError::MissingPass(NodeLabel::new("draw")));
}

#[test]
fn passes_refuse_a_second_pass_for_a_label() {
    let mut passes: RenderGraphPasses<Pass> = RenderGraphPasses::new();
    passes.add("draw", recording_pass()).unwrap();
    assert_eq!(
        passes.add("draw", recording_pass()).unwrap_err(),
        RenderGraphError::DuplicatePass(NodeLabel::new("draw"))
    );
    assert!(passes.contains("draw"));
    assert!(!passes.contains("extract"));
    assert_eq!(passes.len(), 1);
}

#[test]
fn passes_before_a_missing_one_still_run() {
    let mut graph = RenderGraph::new();
    graph.add_node("a").unwrap();
    graph.add_node("b").unwrap();
    graph.add_node("c").unwrap();
    graph.add_node_edge("a", "b").unwrap();
    graph.add_node_edge("b", "c").unwrap();
    let mut resources: Vec<String> = Vec::new();
    let mut passes: RenderGraphPasses<Pass> = RenderGraphPasses::new();
    passes.add("a", recording_pass()).unwrap();
    passes.add("c", recording_pass()).unwrap();

    let error = run_scheduled(&graph, &mut resources, &mut passes).unwrap_err();

    assert_eq!(error, RenderGraphError::MissingPass(NodeLabel::new("b")));
    assert_eq!(resources, vec!["a".to_string()]);
}
