use clustered_lighting::assign::{Influence, VisibleLight};
use clustered_lighting::camera::{Camera, Projection};
use clustered_lighting::cluster::{ClusterConfig, ClusterGrid};
use clustered_lighting::depth::SliceMode;
use clustered_lighting::geometry::{Vector3, Sphere};
use clustered_lighting::graph::NodePbr;
use clustered_lighting::plugin::{edge, stage_graph, stage_order, PbrPlugin, Stage, STAGE_COUNT};
use clustered_lighting::schedule::{Edge, TaskGraph};
use clustered_lighting::visible_lights::global_visible_lights;

fn position(order: &[usize], task: usize) -> usize {
    order.iter().position(|t| *t == task).unwrap()
}

#[test]
fn a_schedule_respects_every_edge() {
    let edges = vec![
        Edge { before: 3, after: 1 },
        Edge { before: 1, after: 0 },
        Edge { before: 3, after: 0 },
        Edge { before: 2, after: 3 },
    ];
    let graph = TaskGraph::new(5, edges.clone()).unwrap();
    assert_eq!(graph.task_count(), 5);
    assert_eq!(graph.edge_list(), &edges);
    let order = graph.schedule().unwrap();
    let mut sorted = order.clone();
    sorted.sort();
    assert_eq!(sorted, vec![0, 1, 2, 3, 4]);
    for e in &edges {
        assert!(position(&order, e.before) < position(&order, e.after));
    }
}

#[test]
fn tasks_that_wait_for_each_other_have_no_schedule() {
    let circle = vec![
        Edge { before: 0, after: 1 },
        Edge { before: 1, after: 2 },
        Edge { before: 2, after: 0 },
    ];
    assert!(TaskGraph::new(4, circle).unwrap().schedule().is_none());
    let itself = vec![Edge { before: 1, after: 1 }];
    assert!(TaskGraph::new(2, itself).unwrap().schedule().is_none());
}

#[test]
fn a_graph_without_tasks_or_edges_has_a_schedule() {
    assert_eq!(TaskGraph::new(0, vec![]).unwrap().schedule(), Some(vec![]));
    assert_eq!(TaskGraph::new(3, vec![]).unwrap().schedule().unwrap().len(), 3);
}

#[test]
fn an_edge_must_join_two_tasks() {
    assert!(TaskGraph::new(2, vec![Edge { before: 0, after: 2 }]).is_none());
    assert!(TaskGraph::new(2, vec![Edge { before: 2, after: 0 }]).is_none());
    assert!(TaskGraph::new(0, vec![Edge { before: 0, after: 0 }]).is_none());
    assert!(TaskGraph::new(2, vec![Edge { before: 0, after: 1 }]).is_some());
}

#[test]
fn the_stages_run_in_the_order_that_lighting_needs() {
    let order: Vec<usize> = stage_order().iter().map(|stage| stage.task()).collect();
    assert_eq!(order.len(), STAGE_COUNT);
    let graph = stage_graph();
    assert_eq!(graph.task_count(), STAGE_COUNT);
    assert_eq!(graph.edge_list().len(), 30);
    for e in graph.edge_list() {
        assert!(position(&order, e.before) < position(&order, e.after));
    }
    let before = |a: Stage, b: Stage| position(&order, a.task()) < position(&order, b.task());
    assert!(before(Stage::AddClusters, Stage::AssignLightsToClusters));
    assert!(before(Stage::TransformPropagate, Stage::BuildDirectionalLightCascades));
    assert!(before(Stage::TransformPropagate, Stage::UpdatePointLightFrusta));
    assert!(before(Stage::TransformPropagate, Stage::UpdateSpotLightFrusta));
    assert!(before(Stage::BuildDirectionalLightCascades, Stage::UpdateDirectionalLightFrusta));
    assert!(before(Stage::UpdateDirectionalLightFrusta, Stage::CheckLightMeshVisibility));
    assert!(before(Stage::UpdatePointLightFrusta, Stage::CheckLightMeshVisibility));
    assert!(before(Stage::UpdateSpotLightFrusta, Stage::CheckLightMeshVisibility));
    assert!(before(Stage::CheckVisibility, Stage::PrepareClusters));
    assert!(before(Stage::CheckLightMeshVisibility, Stage::SortShadowPhase));
    assert!(before(Stage::ShadowPass, Stage::StartMainPass));
}

#[test]
fn stages_and_tasks_name_each_other() {
    for index in 0..STAGE_COUNT {
        assert_eq!(Stage::from_task(index).unwrap().task(), index);
    }
    assert_eq!(Stage::from_task(STAGE_COUNT), None);
    assert_eq!(Stage::TransformPropagate.task(), 0);
    assert_eq!(Stage::StartMainPass.task(), 18);
    assert_eq!(
        edge(Stage::AddClusters, Stage::AssignLightsToClusters),
        Edge { before: 4, after: 5 }
    );
}

#[test]
fn deferred_lighting_is_added_when_switched_on() {
    let plugin = PbrPlugin::default();
    assert_eq!(
        plugin.render_nodes(),
        vec![NodePbr::ShadowPass, NodePbr::ScreenSpaceAmbientOcclusion, NodePbr::DeferredLightingPass]
    );
    let forward = PbrPlugin { prepass_enabled: true, add_default_deferred_lighting_plugin: false };
    assert_eq!(forward.render_nodes(), vec![NodePbr::ShadowPass, NodePbr::ScreenSpaceAmbientOcclusion]);
}

#[test]
fn lights_seen_by_any_view_are_listed_once() {
    let camera = Camera::new(Projection::Perspective { half_width: 1, half_height: 1, focal: 1 }, 100, 900).unwrap();
    let at = |index: u32, x: i32| VisibleLight {
        index,
        influence: Influence::Sphere(Sphere { center: Vector3::new(x, 0, 500), radius: 100 }),
    };
    let mut first = ClusterGrid::new(camera, 800, 800, ClusterConfig::Fixed { x: 4, y: 4, z: 4 }, SliceMode::Linear);
    first.assign_lights(&vec![at(5, 0), at(2, 0), at(9, 5000), at(40, 0)]);
    let mut second = ClusterGrid::new(camera, 800, 800, ClusterConfig::Single, SliceMode::Linear);
    second.assign_lights(&vec![at(2, 0), at(7, 0), at(1, 5000)]);
    let grids = vec![&first, &second];
    assert_eq!(global_visible_lights(&grids, 10), vec![2, 5, 7]);
    assert_eq!(global_visible_lights(&grids, 41), vec![2, 5, 7, 40]);
    assert_eq!(global_visible_lights(&grids, 3), vec![2]);
    assert!(global_visible_lights(&grids, 0).is_empty());
    assert!(global_visible_lights(&vec![], 10).is_empty());
}
