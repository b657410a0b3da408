//! Composition of the robot's and the surface station's plugin groups, and the
//! names under which the video pipelines are offered to the operator.

use vstd::prelude::*;

verus! {

/// A plugin of the robot or the surface application.
#[derive(Clone, Copy, Debug, PartialEq, Eq, Structural)]
pub enum PluginKind {
    Robot,
    State,
    Servo,
    Thruster,
    Stabilize,
    DepthHold,
    PwmOutput,
    Led,
    HwStat,
    Voltage,
    Camera,
    Orientation,
    Depth,
    Leak,
    VideoCallbacks,
    EdgesPipeline,
    MarkerPipeline,
}

/// The robot's core plugins: its own entity and its status.
pub struct CorePlugins;

impl CorePlugins {
    /// The plugins of the group, in the order they are added.
    pub fn members() -> (m: Vec<PluginKind>)
        ensures
            m@ == seq![PluginKind::Robot, PluginKind::State],
    {
        let mut m: Vec<PluginKind> = Vec::new();
        m.push(PluginKind::Robot);
        m.push(PluginKind::State);
        assert(m@ =~= seq![PluginKind::Robot, PluginKind::State]);
        m
    }
}

/// The robot's actuator plugins. The PWM output and the lights drive hardware
/// that exists only on the robot's own board.
pub struct MovementPlugins;

/// The plugins of [`MovementPlugins`].
pub open spec fn movement_members(on_robot_board: bool) -> Seq<PluginKind> {
    let common = seq![
        PluginKind::Servo,
        PluginKind::Thruster,
        PluginKind::Stabilize,
        PluginKind::DepthHold,
    ];
    if on_robot_board {
        common + seq![PluginKind::PwmOutput, PluginKind::Led]
    } else {
        common
    }
}

impl MovementPlugins {
    /// The plugins of the group, in the order they are added.
    pub fn members(on_robot_board: bool) -> (m: Vec<PluginKind>)
        ensures
            m@ == movement_members(on_robot_board),
    {
        let mut m: Vec<PluginKind> = Vec::new();
        m.push(PluginKind::Servo);
        m.push(PluginKind::Thruster);
        m.push(PluginKind::Stabilize);
        m.push(PluginKind::DepthHold);
        if on_robot_board {
            m.push(PluginKind::PwmOutput);
            m.push(PluginKind::Led);
        }
        assert(m@ =~= movement_members(on_robot_board));
        m
    }
}

/// The robot's sensor plugins.
pub struct SensorPlugins;

impl SensorPlugins {
    /// The plugins of the group, in the order they are added.
    pub fn members() -> (m: Vec<PluginKind>)
        ensures
            m@ == seq![
                PluginKind::Camera,
                PluginKind::Orientation,
                PluginKind::Depth,
                PluginKind::Leak,
            ],
    {
        let mut m: Vec<PluginKind> = Vec::new();
        m.push(PluginKind::Camera);
        m.push(PluginKind::Orientation);
        m.push(PluginKind::Depth);
        m.push(PluginKind::Leak);
        assert(m@ =~= seq![
            PluginKind::Camera,
            PluginKind::Orientation,
            PluginKind::Depth,
            PluginKind::Leak,
        ]);
        m
    }
}

/// The robot's health monitoring plugins.
pub struct MonitorPlugins;

impl MonitorPlugins {
    /// The plugins of the group, in the order they are added.
    pub fn members() -> (m: Vec<PluginKind>)
        ensures
            m@ == seq![PluginKind::HwStat, PluginKind::Voltage],
    {
        let mut m: Vec<PluginKind> = Vec::new();
        m.push(PluginKind::HwStat);
        m.push(PluginKind::Voltage);
        assert(m@ =~= seq![PluginKind::HwStat, PluginKind::Voltage]);
        m
    }
}

/// The surface station's video pipeline plugins: the callback scheduler and the
/// pipelines offered by default.
pub struct VideoPipelinePlugins;

impl VideoPipelinePlugins {
    /// The plugins of the group, in the order they are added.
    pub fn members() -> (m: Vec<PluginKind>)
        ensures
            m@ == seq![
                PluginKind::VideoCallbacks,
                PluginKind::EdgesPipeline,
                PluginKind::MarkerPipeline,
            ],
    {
        let mut m: Vec<PluginKind> = Vec::new();
        m.push(PluginKind::VideoCallbacks);
        m.push(PluginKind::EdgesPipeline);
        m.push(PluginKind::MarkerPipeline);
        assert(m@ =~= seq![
            PluginKind::VideoCallbacks,
            PluginKind::EdgesPipeline,
            PluginKind::MarkerPipeline,
        ]);
        m
    }
}

/// Registers the edge detection pipeline.
pub struct EdgesPipelinePlugin;

impl EdgesPipelinePlugin {
    /// The name the pipeline is offered under.
    pub fn pipeline_name() -> (n: &'static str)
        ensures
            n@ == "Edge Detection Pipeline"@,
    {
        "Edge Detection Pipeline"
    }
}

/// Registers the marker pipeline.
pub struct MarkerPipelinePlugin;

impl MarkerPipelinePlugin {
    /// The name the pipeline is offered under.
    pub fn pipeline_name() -> (n: &'static str)
        ensures
            n@ == "Marker Pipeline"@,
    {
        "Marker Pipeline"
    }
}

/// Registers the measuring pipeline.
pub struct MeasurePipelinePlugin;

impl MeasurePipelinePlugin {
    /// The name the pipeline is offered under.
    pub fn pipeline_name() -> (n: &'static str)
        ensures
            n@ == "Measure Pipeline"@,
    {
        "Measure Pipeline"
    }
}

/// Registers the screenshot pipeline.
pub struct SavePipelinePlugin;

impl SavePipelinePlugin {
    /// The name the pipeline is offered under.
    pub fn pipeline_name() -> (n: &'static str)
        ensures
            n@ == "Save Pipeline"@,
    {
        "Save Pipeline"
    }
}

/// Registers the quarter scale pipeline.
pub struct ScalePipelinePlugin;

impl ScalePipelinePlugin {
    /// The name the pipeline is offered under.
    pub fn pipeline_name() -> (n: &'static str)
        ensures
            n@ == "1/4 Scale Pipeline"@,
    {
        "1/4 Scale Pipeline"
    }
}

/// Registers the marker-then-edges pipeline.
pub struct SerialPipelinePlugin;

impl SerialPipelinePlugin {
    /// The name the pipeline is offered under.
    pub fn pipeline_name() -> (n: &'static str)
        ensures
            n@ == "Marker -> Edge Pipeline"@,
    {
        "Marker -> Edge Pipeline"
    }
}

/// Registers the square tracking pipeline.
pub struct SquarePipelinePlugin;

impl SquarePipelinePlugin {
    /// The name the pipeline is offered under.
    pub fn pipeline_name() -> (n: &'static str)
        ensures
            n@ == "Square Tracking Pipeline"@,
    {
        "Square Tracking Pipeline"
    }
}

/// Registers the lens undistortion pipeline.
pub struct UndistortPipelinePlugin;

impl UndistortPipelinePlugin {
    /// The name the pipeline is offered under.
    pub fn pipeline_name() -> (n: &'static str)
        ensures
            n@ == "Undistort Pipeline"@,
    {
        "Undistort Pipeline"
    }
}

} // verus!
