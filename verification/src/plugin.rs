//! What the lighting plugin sets up: its switches, the render graph nodes
//! it adds, and the order in which the stages of a frame run.

use vstd::prelude::*;
use crate::graph::NodePbr;
use crate::schedule::{edges_valid, is_schedule, Edge, TaskGraph};

verus! {

/// Which optional parts of the lighting pipeline are switched on.
#[derive(Clone, Copy, Debug)]
pub struct PbrPlugin {
    /// Whether the depth prepass is enabled for the standard material.
    pub prepass_enabled: bool,
    /// Whether the default deferred lighting pass is added.
    pub add_default_deferred_lighting_plugin: bool,
}

impl Default for PbrPlugin {
    fn default() -> (plugin: Self)
        ensures
            plugin.prepass_enabled,
            plugin.add_default_deferred_lighting_plugin,
    {
        PbrPlugin { prepass_enabled: true, add_default_deferred_lighting_plugin: true }
    }
}

/// The render graph nodes of a plugin: the shadow pass and ambient
/// occlusion always, deferred lighting when it is switched on.
pub open spec fn nodes_of(plugin: PbrPlugin) -> Seq<NodePbr> {
    if plugin.add_default_deferred_lighting_plugin {
        seq![
            NodePbr::ShadowPass,
            NodePbr::ScreenSpaceAmbientOcclusion,
            NodePbr::DeferredLightingPass,
        ]
    } else {
        seq![NodePbr::ShadowPass, NodePbr::ScreenSpaceAmbientOcclusion]
    }
}

impl PbrPlugin {
    /// The render graph nodes that the plugin adds.
    pub fn render_nodes(&self) -> (nodes: Vec<NodePbr>)
        ensures
            nodes@ == nodes_of(*self),
    {
        let mut nodes: Vec<NodePbr> = Vec::new();
        nodes.push(NodePbr::ShadowPass);
        nodes.push(NodePbr::ScreenSpaceAmbientOcclusion);
        if self.add_default_deferred_lighting_plugin {
            nodes.push(NodePbr::DeferredLightingPass);
        }
        assert(nodes@ =~= nodes_of(*self));
        nodes
    }
}

/// The stages of a frame that lighting runs or waits for.
#[derive(Clone, Copy, Debug, PartialEq, Eq, Structural)]
pub enum Stage {
    /// World transforms are brought up to date.
    TransformPropagate,
    /// Camera projections and viewports are brought up to date.
    CameraUpdate,
    /// Bounding volumes of meshes are computed.
    CalculateBounds,
    /// Meshes are culled against the views of the cameras.
    CheckVisibility,
    /// Cluster grids are sized.
    AddClusters,
    /// Lights are listed in the cells of the grids.
    AssignLightsToClusters,
    /// The cascades of the frame before are dropped.
    ClearDirectionalLightCascades,
    /// The cascades of directional lights are built.
    BuildDirectionalLightCascades,
    /// The frusta of directional lights are derived from their cascades.
    UpdateDirectionalLightFrusta,
    /// The cube face frusta of point lights are built.
    UpdatePointLightFrusta,
    /// The frusta of spot lights are built.
    UpdateSpotLightFrusta,
    /// Meshes are culled against the frusta of the lights.
    CheckLightMeshVisibility,
    /// The grids are handed to rendering.
    ExtractClusters,
    /// The lights are handed to rendering.
    ExtractLights,
    /// The lights are packed and shadow views set up.
    PrepareLights,
    /// The shadow casters of each light are sorted.
    SortShadowPhase,
    /// The cluster lists are packed into buffers.
    PrepareClusters,
    /// The shadow maps are drawn.
    ShadowPass,
    /// The main pass starts.
    StartMainPass,
}

/// The number of stages.
pub const STAGE_COUNT: usize = 19;

impl Stage {
    /// The name of the stage as a task of the stage graph.
    pub open spec fn index(self) -> usize {
        match self {
            Stage::TransformPropagate => 0,
            Stage::CameraUpdate => 1,
            Stage::CalculateBounds => 2,
            Stage::CheckVisibility => 3,
            Stage::AddClusters => 4,
            Stage::AssignLightsToClusters => 5,
            Stage::ClearDirectionalLightCascades => 6,
            Stage::BuildDirectionalLightCascades => 7,
            Stage::UpdateDirectionalLightFrusta => 8,
            Stage::UpdatePointLightFrusta => 9,
            Stage::UpdateSpotLightFrusta => 10,
            Stage::CheckLightMeshVisibility => 11,
            Stage::ExtractClusters => 12,
            Stage::ExtractLights => 13,
            Stage::PrepareLights => 14,
            Stage::SortShadowPhase => 15,
            Stage::PrepareClusters => 16,
            Stage::ShadowPass => 17,
            Stage::StartMainPass => 18,
        }
    }

    /// The name of the stage as a task of the stage graph.
    pub fn task(&self) -> (index: usize)
        ensures
            index == self.index(),
            index < STAGE_COUNT,
    {
        match self {
            Stage::TransformPropagate => 0,
            Stage::CameraUpdate => 1,
            Stage::CalculateBounds => 2,
            Stage::CheckVisibility => 3,
            Stage::AddClusters => 4,
            Stage::AssignLightsToClusters => 5,
            Stage::ClearDirectionalLightCascades => 6,
            Stage::BuildDirectionalLightCascades => 7,
            Stage::UpdateDirectionalLightFrusta => 8,
            Stage::UpdatePointLightFrusta => 9,
            Stage::UpdateSpotLightFrusta => 10,
            Stage::CheckLightMeshVisibility => 11,
            Stage::ExtractClusters => 12,
            Stage::ExtractLights => 13,
            Stage::PrepareLights => 14,
            Stage::SortShadowPhase => 15,
            Stage::PrepareClusters => 16,
            Stage::ShadowPass => 17,
            Stage::StartMainPass => 18,
        }
    }

    /// The stage with the given task name.
    pub fn from_task(index: usize) -> (stage: Option<Stage>)
        ensures
            stage is Some <==> index < STAGE_COUNT,
            stage matches Some(s) ==> s.index() == index,
    {
        match index {
            0 => Some(Stage::TransformPropagate),
            1 => Some(Stage::CameraUpdate),
            2 => Some(Stage::CalculateBounds),
            3 => Some(Stage::CheckVisibility),
            4 => Some(Stage::AddClusters),
            5 => Some(Stage::AssignLightsToClusters),
            6 => Some(Stage::ClearDirectionalLightCascades),
            7 => Some(Stage::BuildDirectionalLightCascades),
            8 => Some(Stage::UpdateDirectionalLightFrusta),
            9 => Some(Stage::UpdatePointLightFrusta),
            10 => Some(Stage::UpdateSpotLightFrusta),
            11 => Some(Stage::CheckLightMeshVisibility),
            12 => Some(Stage::ExtractClusters),
            13 => Some(Stage::ExtractLights),
            14 => Some(Stage::PrepareLights),
            15 => Some(Stage::SortShadowPhase),
            16 => Some(Stage::PrepareClusters),
            17 => Some(Stage::ShadowPass),
            18 => Some(Stage::StartMainPass),
            _ => None,
        }
    }
}

/// The edge that has `before` run before `after`.
pub open spec fn edge_of(before: Stage, after: Stage) -> Edge {
    Edge { before: before.index(), after: after.index() }
}

/// Which stage must be over before which starts.
pub open spec fn stage_edges() -> Seq<Edge> {
    seq![
        edge_of(Stage::AddClusters, Stage::AssignLightsToClusters),
        edge_of(Stage::TransformPropagate, Stage::AssignLightsToClusters),
        edge_of(Stage::CheckVisibility, Stage::AssignLightsToClusters),
        edge_of(Stage::CameraUpdate, Stage::AssignLightsToClusters),
        edge_of(Stage::ClearDirectionalLightCascades, Stage::BuildDirectionalLightCascades),
        edge_of(Stage::TransformPropagate, Stage::ClearDirectionalLightCascades),
        edge_of(Stage::CameraUpdate, Stage::ClearDirectionalLightCascades),
        edge_of(Stage::TransformPropagate, Stage::BuildDirectionalLightCascades),
        edge_of(Stage::CameraUpdate, Stage::BuildDirectionalLightCascades),
        edge_of(Stage::CheckVisibility, Stage::UpdateDirectionalLightFrusta),
        edge_of(Stage::TransformPropagate, Stage::UpdateDirectionalLightFrusta),
        edge_of(Stage::BuildDirectionalLightCascades, Stage::UpdateDirectionalLightFrusta),
        edge_of(Stage::TransformPropagate, Stage::UpdatePointLightFrusta),
        edge_of(Stage::AssignLightsToClusters, Stage::UpdatePointLightFrusta),
        edge_of(Stage::TransformPropagate, Stage::UpdateSpotLightFrusta),
        edge_of(Stage::AssignLightsToClusters, Stage::UpdateSpotLightFrusta),
        edge_of(Stage::CalculateBounds, Stage::CheckLightMeshVisibility),
        edge_of(Stage::TransformPropagate, Stage::CheckLightMeshVisibility),
        edge_of(Stage::UpdateDirectionalLightFrusta, Stage::CheckLightMeshVisibility),
        edge_of(Stage::UpdatePointLightFrusta, Stage::CheckLightMeshVisibility),
        edge_of(Stage::UpdateSpotLightFrusta, Stage::CheckLightMeshVisibility),
        edge_of(Stage::CheckVisibility, Stage::CheckLightMeshVisibility),
        edge_of(Stage::AssignLightsToClusters, Stage::ExtractClusters),
        edge_of(Stage::CheckLightMeshVisibility, Stage::ExtractLights),
        edge_of(Stage::ExtractLights, Stage::PrepareLights),
        edge_of(Stage::PrepareLights, Stage::SortShadowPhase),
        edge_of(Stage::ExtractClusters, Stage::PrepareClusters),
        edge_of(Stage::SortShadowPhase, Stage::PrepareClusters),
        edge_of(Stage::PrepareClusters, Stage::ShadowPass),
        edge_of(Stage::ShadowPass, Stage::StartMainPass),
    ]
}

/// Makes the edge that has `before` run before `after`.
pub fn edge(before: Stage, after: Stage) -> (e: Edge)
    ensures
        e == edge_of(before, after),
{
    Edge { before: before.task(), after: after.task() }
}

/// Builds the graph of the stages.
pub fn stage_graph() -> (graph: TaskGraph)
    ensures
        graph.wf(),
        graph.tasks() == STAGE_COUNT,
        graph.edges() == stage_edges(),
{
    let mut edges: Vec<Edge> = Vec::new();
    edges.push(edge(Stage::AddClusters, Stage::AssignLightsToClusters));
    edges.push(edge(Stage::TransformPropagate, Stage::AssignLightsToClusters));
    edges.push(edge(Stage::CheckVisibility, Stage::AssignLightsToClusters));
    edges.push(edge(Stage::CameraUpdate, Stage::AssignLightsToClusters));
    edges.push(edge(Stage::ClearDirectionalLightCascades, Stage::BuildDirectionalLightCascades));
    edges.push(edge(Stage::TransformPropagate, Stage::ClearDirectionalLightCascades));
    edges.push(edge(Stage::CameraUpdate, Stage::ClearDirectionalLightCascades));
    edges.push(edge(Stage::TransformPropagate, Stage::BuildDirectionalLightCascades));
    edges.push(edge(Stage::CameraUpdate, Stage::BuildDirectionalLightCascades));
    edges.push(edge(Stage::CheckVisibility, Stage::UpdateDirectionalLightFrusta));
    edges.push(edge(Stage::TransformPropagate, Stage::UpdateDirectionalLightFrusta));
    edges.push(edge(Stage::BuildDirectionalLightCascades, Stage::UpdateDirectionalLightFrusta));
    edges.push(edge(Stage::TransformPropagate, Stage::UpdatePointLightFrusta));
    edges.push(edge(Stage::AssignLightsToClusters, Stage::UpdatePointLightFrusta));
    edges.push(edge(Stage::TransformPropagate, Stage::UpdateSpotLightFrusta));
    edges.push(edge(Stage::AssignLightsToClusters, Stage::UpdateSpotLightFrusta));
    edges.push(edge(Stage::CalculateBounds, Stage::CheckLightMeshVisibility));
    edges.push(edge(Stage::TransformPropagate, Stage::CheckLightMeshVisibility));
    edges.push(edge(Stage::UpdateDirectionalLightFrusta, Stage::CheckLightMeshVisibility));
    edges.push(edge(Stage::UpdatePointLightFrusta, Stage::CheckLightMeshVisibility));
    edges.push(edge(Stage::UpdateSpotLightFrusta, Stage::CheckLightMeshVisibility));
    edges.push(edge(Stage::CheckVisibility, Stage::CheckLightMeshVisibility));
    edges.push(edge(Stage::AssignLightsToClusters, Stage::ExtractClusters));
    edges.push(edge(Stage::CheckLightMeshVisibility, Stage::ExtractLights));
    edges.push(edge(Stage::ExtractLights, Stage::PrepareLights));
    edges.push(edge(Stage::PrepareLights, Stage::SortShadowPhase));
    edges.push(edge(Stage::ExtractClusters, Stage::PrepareClusters));
    edges.push(edge(Stage::SortShadowPhase, Stage::PrepareClusters));
    edges.push(edge(Stage::PrepareClusters, Stage::ShadowPass));
    edges.push(edge(Stage::ShadowPass, Stage::StartMainPass));
    assert(edges@ =~= stage_edges());
    proof {
        lemma_stage_edges_forward();
    }
    TaskGraph::new(STAGE_COUNT, edges).unwrap()
}

/// Every edge of the stage graph leads from a stage to a later one in the
/// order in which `Stage` lists them.
pub proof fn lemma_stage_edges_forward()
    ensures
        stage_edges().len() == 30,
        forall|e: int|
            0 <= e < stage_edges().len() ==> (#[trigger] stage_edges()[e]).before
                < stage_edges()[e].after < STAGE_COUNT,
        edges_valid(STAGE_COUNT as int, stage_edges()),
{
}

/// The stages in the order in which `Stage` lists them.
pub open spec fn listed_order() -> Seq<usize> {
    Seq::new(STAGE_COUNT as nat, |i: int| i as usize)
}

/// The stages do not wait for each other in a circle: the order in which
/// `Stage` lists them is a schedule.
pub proof fn lemma_stage_graph_has_schedule()
    ensures
        is_schedule(STAGE_COUNT as int, stage_edges(), listed_order()),
{
    let order = listed_order();
    lemma_stage_edges_forward();
    assert forall|t: usize| t < STAGE_COUNT implies order.contains(t) by {
        assert(order[t as int] == t);
    }
    assert forall|e: int, i: int, j: int|
        #![trigger stage_edges()[e], order[i], order[j]]
        0 <= e < stage_edges().len() && 0 <= i < order.len() && 0 <= j < order.len() && order[i]
            == stage_edges()[e].before && order[j] == stage_edges()[e].after implies i < j by {
        assert(stage_edges()[e].before < stage_edges()[e].after);
    }
}

/// Whether `order` runs `first` before `second`.
pub open spec fn runs_before(order: Seq<usize>, first: Stage, second: Stage) -> bool {
    forall|i: int, j: int|
        #![trigger order[i], order[j]]
        0 <= i < order.len() && 0 <= j < order.len() && order[i] == first.index() && order[j]
            == second.index() ==> i < j
}

/// A schedule runs the two stages of an edge in the order of the edge.
pub proof fn lemma_edge_runs_before(order: Seq<usize>, e: int, first: Stage, second: Stage)
    requires
        is_schedule(STAGE_COUNT as int, stage_edges(), order),
        0 <= e < stage_edges().len(),
        stage_edges()[e] == edge_of(first, second),
    ensures
        runs_before(order, first, second),
{
    assert forall|i: int, j: int|
        #![trigger order[i], order[j]]
        0 <= i < order.len() && 0 <= j < order.len() && order[i] == first.index() && order[j]
            == second.index() implies i < j by {
        assert(order[i] == stage_edges()[e].before && order[j] == stage_edges()[e].after);
    }
}

/// Running before is transitive in a schedule.
pub proof fn lemma_runs_before_chain(order: Seq<usize>, first: Stage, middle: Stage, last: Stage)
    requires
        is_schedule(STAGE_COUNT as int, stage_edges(), order),
        runs_before(order, first, middle),
        runs_before(order, middle, last),
    ensures
        runs_before(order, first, last),
{
    assert(order.contains(middle.index()));
    let m = choose|m: int| 0 <= m < order.len() && order[m] == middle.index();
    assert forall|i: int, j: int|
        #![trigger order[i], order[j]]
        0 <= i < order.len() && 0 <= j < order.len() && order[i] == first.index() && order[j]
            == last.index() implies i < j by {
        assert(order[i] == first.index() && order[m] == middle.index());
        assert(order[m] == middle.index() && order[j] == last.index());
    }
}

/// Every schedule of the stage graph keeps the order that lighting needs:
/// grids are sized before lights are listed in them; world transforms are
/// up to date before cascades and frusta are built; cascades are built
/// before the frusta of directional lights; every frustum is built before
/// meshes are culled against the lights; the camera views are culled before
/// the cluster lists are packed; and meshes are culled against the lights
/// before the shadow casters are sorted.
pub proof fn lemma_stage_order(order: Seq<usize>)
    requires
        is_schedule(STAGE_COUNT as int, stage_edges(), order),
    ensures
        runs_before(order, Stage::AddClusters, Stage::AssignLightsToClusters),
        runs_before(order, Stage::TransformPropagate, Stage::BuildDirectionalLightCascades),
        runs_before(order, Stage::TransformPropagate, Stage::UpdateDirectionalLightFrusta),
        runs_before(order, Stage::TransformPropagate, Stage::UpdatePointLightFrusta),
        runs_before(order, Stage::TransformPropagate, Stage::UpdateSpotLightFrusta),
        runs_before(order, Stage::BuildDirectionalLightCascades, Stage::UpdateDirectionalLightFrusta),
        runs_before(order, Stage::UpdateDirectionalLightFrusta, Stage::CheckLightMeshVisibility),
        runs_before(order, Stage::UpdatePointLightFrusta, Stage::CheckLightMeshVisibility),
        runs_before(order, Stage::UpdateSpotLightFrusta, Stage::CheckLightMeshVisibility),
        runs_before(order, Stage::CheckVisibility, Stage::PrepareClusters),
        runs_before(order, Stage::CheckLightMeshVisibility, Stage::SortShadowPhase),
{
    lemma_edge_runs_before(order, 0, Stage::AddClusters, Stage::AssignLightsToClusters);
    lemma_edge_runs_before(order, 7, Stage::TransformPropagate, Stage::BuildDirectionalLightCascades);
    lemma_edge_runs_before(order, 10, Stage::TransformPropagate, Stage::UpdateDirectionalLightFrusta);
    lemma_edge_runs_before(order, 12, Stage::TransformPropagate, Stage::UpdatePointLightFrusta);
    lemma_edge_runs_before(order, 14, Stage::TransformPropagate, Stage::UpdateSpotLightFrusta);
    lemma_edge_runs_before(
        order,
        11,
        Stage::BuildDirectionalLightCascades,
        Stage::UpdateDirectionalLightFrusta,
    );
    lemma_edge_runs_before(
        order,
        18,
        Stage::UpdateDirectionalLightFrusta,
        Stage::CheckLightMeshVisibility,
    );
    lemma_edge_runs_before(order, 19, Stage::UpdatePointLightFrusta, Stage::CheckLightMeshVisibility);
    lemma_edge_runs_before(order, 20, Stage::UpdateSpotLightFrusta, Stage::CheckLightMeshVisibility);
    // The camera views are culled before the lights are listed, the lists
    // are handed over after that, and packed after that.
    lemma_edge_runs_before(order, 2, Stage::CheckVisibility, Stage::AssignLightsToClusters);
    lemma_edge_runs_before(order, 22, Stage::AssignLightsToClusters, Stage::ExtractClusters);
    lemma_edge_runs_before(order, 26, Stage::ExtractClusters, Stage::PrepareClusters);
    lemma_runs_before_chain(
        order,
        Stage::CheckVisibility,
        Stage::AssignLightsToClusters,
        Stage::ExtractClusters,
    );
    lemma_runs_before_chain(
        order,
        Stage::CheckVisibility,
        Stage::ExtractClusters,
        Stage::PrepareClusters,
    );
    // The lights are handed over after their meshes are culled, prepared
    // after that, and the shadow casters sorted after that.
    lemma_edge_runs_before(order, 23, Stage::CheckLightMeshVisibility, Stage::ExtractLights);
    lemma_edge_runs_before(order, 24, Stage::ExtractLights, Stage::PrepareLights);
    lemma_edge_runs_before(order, 25, Stage::PrepareLights, Stage::SortShadowPhase);
    lemma_runs_before_chain(
        order,
        Stage::CheckLightMeshVisibility,
        Stage::ExtractLights,
        Stage::PrepareLights,
    );
    lemma_runs_before_chain(
        order,
        Stage::CheckLightMeshVisibility,
        Stage::PrepareLights,
        Stage::SortShadowPhase,
    );
}

/// The task names of a list of stages.
pub open spec fn tasks_of(stages: Seq<Stage>) -> Seq<usize> {
    Seq::new(stages.len(), |i: int| stages[i].index())
}

/// Puts the stages in an order that respects every edge of the stage
/// graph.
pub fn stage_order() -> (stages: Vec<Stage>)
    ensures
        is_schedule(STAGE_COUNT as int, stage_edges(), tasks_of(stages@)),
{
    let graph = stage_graph();
    proof {
        lemma_stage_graph_has_schedule();
    }
    let order = graph.schedule().unwrap();
    let mut stages: Vec<Stage> = Vec::new();
    let mut i: usize = 0;
    while i < order.len()
        invariant
            0 <= i <= order@.len(),
            is_schedule(STAGE_COUNT as int, stage_edges(), order@),
            stages@.len() == i,
            forall|k: int| 0 <= k < i ==> (#[trigger] stages@[k]).index() == order@[k],
        decreases order@.len() - i,
    {
        assert(order@[i as int] < STAGE_COUNT);
        stages.push(Stage::from_task(order[i]).unwrap());
        i += 1;
    }
    assert(tasks_of(stages@) =~= order@);
    stages
}

} // verus!
