//! The debug UI's own decisions: the tab bar (which tabs there are, in order, what each is called,
//! and which one is selected), the single-pass all-in/all-out toggle, the sharpening checkbox, and
//! the render-trace buttons.
use vstd::prelude::*;

verus! {

/// A tab of the debug window.
#[derive(Debug, Clone, Copy, PartialEq, Eq, Structural)]
pub enum EguiTab {
    Render,
    Hud,
    Debug,
    Camera,
    Game,
    Environment,
    Vr,
}

/// The tabs in the order the tab bar shows them.
pub open spec fn tab_order() -> Seq<EguiTab> {
    seq![
        EguiTab::Render,
        EguiTab::Hud,
        EguiTab::Debug,
        EguiTab::Camera,
        EguiTab::Game,
        EguiTab::Environment,
        EguiTab::Vr,
    ]
}

/// The label a tab carries: its variant's name.
pub open spec fn tab_label(tab: EguiTab) -> Seq<char> {
    match tab {
        EguiTab::Render => "Render"@,
        EguiTab::Hud => "Hud"@,
        EguiTab::Debug => "Debug"@,
        EguiTab::Camera => "Camera"@,
        EguiTab::Game => "Game"@,
        EguiTab::Environment => "Environment"@,
        EguiTab::Vr => "Vr"@,
    }
}

impl EguiTab {
    /// The tabs in tab-bar order.
    pub fn all() -> (tabs: Vec<EguiTab>)
        ensures
            tabs@ == tab_order(),
    {
        let tabs = vec![
            EguiTab::Render,
            EguiTab::Hud,
            EguiTab::Debug,
            EguiTab::Camera,
            EguiTab::Game,
            EguiTab::Environment,
            EguiTab::Vr,
        ];
        proof {
            assert(tabs@ =~= tab_order());
        }
        tabs
    }

    /// The label the tab bar shows for this tab.
    pub fn name(&self) -> (s: &'static str)
        ensures
            s@ == tab_label(*self),
    {
        match self {
            EguiTab::Render => "Render",
            EguiTab::Hud => "Hud",
            EguiTab::Debug => "Debug",
            EguiTab::Camera => "Camera",
            EguiTab::Game => "Game",
            EguiTab::Environment => "Environment",
            EguiTab::Vr => "Vr",
        }
    }

    /// The selected tab.
    pub fn get(selection: &TabSelection) -> (tab: EguiTab)
        ensures
            tab == selection.spec_selected(),
    {
        selection.tab
    }
}

/// The tab currently selected.
pub struct TabSelection {
    tab: EguiTab,
}

impl TabSelection {
    /// The Render tab is selected at start.
    pub fn new() -> (s: Self)
        ensures
            s.spec_selected() == EguiTab::Render,
    {
        TabSelection { tab: EguiTab::Render }
    }

    pub closed spec fn spec_selected(&self) -> EguiTab {
        self.tab
    }

    /// Select a tab (a click on its button).
    pub fn select(&mut self, tab: EguiTab)
        ensures
            final(self).spec_selected() == tab,
    {
        self.tab = tab;
    }
}

/// The single-pass stereo levers the all-in/all-out toggle flips.
#[derive(Debug, Clone, Copy, PartialEq, Eq, Structural)]
pub struct SinglePassLevers {
    pub enabled: bool,
    pub dual_eye: bool,
    pub collapse: bool,
    pub double_wide: bool,
    pub reproject: bool,
    pub reproject_camera_only: bool,
    pub terrain: bool,
    pub tree_impostors: bool,
    pub bark: bool,
    pub foliage: bool,
    pub occluder: bool,
    pub patch_dryrun: bool,
}

/// What pressing the all-in/all-out toggle does to the configuration.
#[derive(Debug, Clone, Copy, PartialEq, Eq, Structural)]
pub struct SinglePassToggle {
    /// The levers afterwards.
    pub levers: SinglePassLevers,
    /// The native-resolution switch afterwards.
    pub native_resolution: bool,
    /// Whether the far-field mode moves from Share to Collect.
    pub far_field_to_collect: bool,
    /// Whether the shaders are reloaded (always: on to apply the patches, off to restore them).
    pub reload_shaders: bool,
}

/// Every lever set to `on`, and the census dry-run cleared.
pub open spec fn all_levers(on: bool) -> SinglePassLevers {
    SinglePassLevers {
        enabled: on,
        dual_eye: on,
        collapse: on,
        double_wide: on,
        reproject: on,
        reproject_camera_only: on,
        terrain: on,
        tree_impostors: on,
        bark: on,
        foliage: on,
        occluder: on,
        patch_dryrun: false,
    }
}

/// The toggle's label: it offers to disable while the feature is enabled, else to enable it.
pub fn single_pass_toggle_label(enabled: bool) -> (s: &'static str)
    ensures
        s@ == (if enabled {
            "\u{26A1} Disable single-pass stereo"@
        } else {
            "\u{26A1} Enable single-pass stereo"@
        }),
{
    if enabled {
        "\u{26A1} Disable single-pass stereo"
    } else {
        "\u{26A1} Enable single-pass stereo"
    }
}

/// Press the all-in/all-out toggle: every lever and native resolution follow the opposite of the
/// master switch, the dry-run is cleared, a Share far field moves to Collect when turning on, and
/// the shaders reload.
pub fn toggle_single_pass(levers: &SinglePassLevers, far_field_share: bool) -> (r: SinglePassToggle)
    ensures
        r == (SinglePassToggle {
            levers: all_levers(!levers.enabled),
            native_resolution: !levers.enabled,
            far_field_to_collect: !levers.enabled && far_field_share,
            reload_shaders: true,
        }),
{
    let on = !levers.enabled;
    SinglePassToggle {
        levers: SinglePassLevers {
            enabled: on,
            dual_eye: on,
            collapse: on,
            double_wide: on,
            reproject: on,
            reproject_camera_only: on,
            terrain: on,
            tree_impostors: on,
            bark: on,
            foliage: on,
            occluder: on,
            patch_dryrun: false,
        },
        native_resolution: on,
        far_field_to_collect: on && far_field_share,
        reload_shaders: true,
    }
}

/// What the sharpening checkbox does to the sharpness setting.
#[derive(Debug, Clone, Copy, PartialEq, Eq, Structural)]
pub enum SharpnessChange {
    /// Turned on from nothing: set the default strength.
    SetDefault,
    /// Turned off: clear the strength.
    Clear,
    /// Nothing to do.
    Keep,
}

/// The change after the checkbox reads `checked` while a strength is (`set`) or is not held.
pub fn sharpness_change(checked: bool, set: bool) -> (c: SharpnessChange)
    ensures
        c == (if checked && !set {
            SharpnessChange::SetDefault
        } else if !checked && set {
            SharpnessChange::Clear
        } else {
            SharpnessChange::Keep
        }),
{
    if checked && !set {
        SharpnessChange::SetDefault
    } else if !checked && set {
        SharpnessChange::Clear
    } else {
        SharpnessChange::Keep
    }
}

/// The length of the short render trace, in frames.
pub const SHORT_TRACE_FRAMES: i32 = 4;

/// The length the long render trace starts with, in frames.
pub const DEFAULT_TRACE_FRAMES: i32 = 60;

/// The trace to start once the configuration is released: the configured length when its button
/// was pressed (it is laid out second, so it wins), else the short one when its button was, else
/// none.
pub fn trace_to_start(short_clicked: bool, long_clicked: bool, count: i32) -> (r: Option<i32>)
    ensures
        r == (if long_clicked {
            Some(count)
        } else if short_clicked {
            Some(SHORT_TRACE_FRAMES)
        } else {
            None
        }),
{
    let mut start: Option<i32> = None;
    if short_clicked {
        start = Some(SHORT_TRACE_FRAMES);
    }
    if long_clicked {
        start = Some(count);
    }
    start
}

/// What the trace status line says.
#[derive(Debug, Clone, Copy, PartialEq, Eq, Structural)]
pub enum TraceStatus {
    /// A trace is running, with this many frames left.
    Tracing(i32),
    /// The last trace was written.
    Dumped,
    /// No trace yet.
    Idle,
}

/// The status for `remaining` frames still to trace and whether a trace was written before.
pub fn trace_status(remaining: i32, dumped: bool) -> (s: TraceStatus)
    ensures
        s == (if remaining > 0 {
            TraceStatus::Tracing(remaining)
        } else if dumped {
            TraceStatus::Dumped
        } else {
            TraceStatus::Idle
        }),
{
    if remaining > 0 {
        TraceStatus::Tracing(remaining)
    } else if dumped {
        TraceStatus::Dumped
    } else {
        TraceStatus::Idle
    }
}

} // verus!
