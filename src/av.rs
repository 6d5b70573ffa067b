//! Capture sessions and their connections, as the records of properties that
//! the runtime keeps for them. Inputs, outputs, ports, layers and controls are
//! other objects of the runtime, named by their handles.
use vstd::prelude::*;
use crate::arc::{Obj, A};
use crate::ns::{self, ExResult, Outcome};
use crate::cf::Type;
use crate::runtime::{addrs, Id, Runtime};

verus! {

/// Video orientation, for preview layers and connections.
#[derive(Clone, Copy, Debug, PartialEq, Eq, Structural)]
pub enum VideoOrienation {
    /// Vertical, home button on the bottom.
    Portrait,
    /// Vertical, home button on the top.
    PortraitUpsideDown,
    /// Horizontal, home button on the right.
    LandscapeRight,
    /// Horizontal, home button on the left.
    LandscapeLeft,
}

/// Why a session was interrupted.
#[derive(Clone, Copy, Debug, PartialEq, Eq, Structural)]
pub enum InterruptionReason {
    VideoDeviceNotAvailableInBackground,
    AudioDeviceInUseByAnotherClient,
    VideoDeviceInUseByAnotherClient,
    VideoDeviceNotAvailableWithMultipleForegroundApps,
    VideoDeviceNotAvailableDueToSystemPressure,
}

/// A quality level or bit rate that a session can be set to.
#[derive(Clone, Copy, Debug, PartialEq, Eq, Structural)]
pub enum Preset {
    High,
    Medium,
    Low,
    Photo,
    InputPriority,
    Hd1280x720,
    Hd1920x1080,
    Hd4k3840x2160,
}

/// Video stabilization of a connection.
#[derive(Clone, Copy, Debug, PartialEq, Eq, Structural)]
pub enum VideoStabilizationMode {
    Off,
    Standard,
    Cinematic,
    CinematicExtended,
    PreviewOptimized,
    CinematicExtendedEnhanced,
    Auto,
}

/// `s` without any occurrence of `x`, order kept.
pub open spec fn without(s: Seq<Id>, x: Id) -> Seq<Id>
    decreases s.len(),
{
    if s.len() == 0 {
        s
    } else if s.last() == x {
        without(s.drop_last(), x)
    } else {
        without(s.drop_last(), x).push(s.last())
    }
}

fn remove_all(v: &Vec<Id>, x: Id) -> (r: Vec<Id>)
    ensures
        r@ == without(v@, x),
{
    let mut r: Vec<Id> = Vec::new();
    let mut i: usize = 0;
    while i < v.len()
        invariant
            i <= v@.len(),
            r@ == without(v@.subrange(0, i as int), x),
        decreases v@.len() - i,
    {
        proof {
            assert(v@.subrange(0, i + 1).drop_last() =~= v@.subrange(0, i as int));
        }
        if v[i] != x {
            r.push(v[i]);
        }
        i = i + 1;
    }
    proof {
        assert(v@.subrange(0, v@.len() as int) =~= v@);
    }
    r
}

fn holds(v: &Vec<Id>, x: Id) -> (r: bool)
    ensures
        r == v@.contains(x),
{
    let mut i: usize = 0;
    while i < v.len()
        invariant
            i <= v@.len(),
            forall|j: int| 0 <= j < i ==> v@[j] != x,
        decreases v@.len() - i,
    {
        if v[i] == x {
            proof {
                assert(v@[i as int] == x);
            }
            return true;
        }
        i = i + 1;
    }
    false
}

/// Configures capture and coordinates the flow of data from inputs to outputs.
pub struct Session {
    pub presets: Vec<Preset>,
    pub preset: Preset,
    pub inputs: Vec<Id>,
    pub outputs: Vec<Id>,
    pub connections: Vec<Id>,
    pub controls: Vec<Id>,
    pub supports_controls: bool,
    pub max_controls_count: isize,
    pub controls_delegate: Option<Id>,
    pub controls_delegate_queue: Option<Id>,
    pub cfg_depth: u32,
    pub running: bool,
    pub interrupted: bool,
    pub multitasking_supported: bool,
    pub multitasking_enabled: bool,
    pub uses_app_audio_session: bool,
    pub auto_configures_app_audio_session: bool,
    pub mixes_with_others: bool,
    pub auto_wide_color: bool,
    pub sync_clock: Option<Id>,
}

impl Session {
    /// A session that supports `presets`, set to the first of them (or to
    /// `High` where there is none), with no inputs, outputs or connections,
    /// not running, and the runtime's documented defaults otherwise.
    pub fn new(presets: Vec<Preset>, supports_controls: bool, max_controls_count: isize) -> (r: Session)
        ensures
            r.presets@ == presets@,
            r.preset == (if presets@.len() > 0 { presets@[0] } else { Preset::High }),
            r.inputs@.len() == 0,
            r.outputs@.len() == 0,
            r.connections@.len() == 0,
            r.controls@.len() == 0,
            r.supports_controls == supports_controls,
            r.max_controls_count == max_controls_count,
            r.controls_delegate is None,
            r.controls_delegate_queue is None,
            r.cfg_depth == 0,
            !r.running,
            !r.interrupted,
            !r.multitasking_supported,
            !r.multitasking_enabled,
            r.uses_app_audio_session,
            r.auto_configures_app_audio_session,
            !r.mixes_with_others,
            r.auto_wide_color,
            r.sync_clock is None,
    {
        let preset = if presets.len() > 0 { presets[0] } else { Preset::High };
        Session {
            presets,
            preset,
            inputs: Vec::new(),
            outputs: Vec::new(),
            connections: Vec::new(),
            controls: Vec::new(),
            supports_controls,
            max_controls_count,
            controls_delegate: None,
            controls_delegate_queue: None,
            cfg_depth: 0,
            running: false,
            interrupted: false,
            multitasking_supported: false,
            multitasking_enabled: false,
            uses_app_audio_session: true,
            auto_configures_app_audio_session: true,
            mixes_with_others: false,
            auto_wide_color: true,
            sync_clock: None,
        }
    }

    pub fn can_set_session_preset(&self, preset: Preset) -> (r: bool)
        ensures
            r == self.presets@.contains(preset),
    {
        let mut i: usize = 0;
        while i < self.presets.len()
            invariant
                i <= self.presets@.len(),
                forall|j: int| 0 <= j < i ==> self.presets@[j] != preset,
            decreases self.presets@.len() - i,
        {
            if self.presets[i] == preset {
                proof {
                    assert(self.presets@[i as int] == preset);
                }
                return true;
            }
            i = i + 1;
        }
        false
    }

    pub fn session_preset(&self) -> (r: Preset)
        ensures
            r == self.preset,
    {
        self.preset
    }

    /// The raw call: a preset the session does not support raises.
    pub fn set_session_preset_throws(&mut self, rt: &mut Runtime, val: Preset) -> (r: Outcome<()>)
        requires
            old(rt).wf(),
            old(rt).scope_depth() > 0,
        ensures
            old(self).presets@.contains(val) ==> r is Returned && *final(self) == (Session {
                preset: val,
                ..*old(self)
            }) && *final(rt) == *old(rt),
            !old(self).presets@.contains(val) ==> r is Raised && *final(self) == *old(self)
                && final(rt).wf() && ns::raised(final(rt), old(rt), r->Raised_0),
    {
        if self.can_set_session_preset(val) {
            self.preset = val;
            Outcome::Returned(())
        } else {
            let r = rt.raise();
            r
        }
    }

    /// Sets the preset, turning the exception that an unsupported preset
    /// raises into an error.
    pub fn set_session_preset(&mut self, rt: &mut Runtime, val: Preset) -> (r: ExResult<()>)
        requires
            old(rt).wf(),
            old(rt).scope_depth() > 0,
        ensures
            old(self).presets@.contains(val) ==> r is Ok && *final(self) == (Session {
                preset: val,
                ..*old(self)
            }),
            !old(self).presets@.contains(val) ==> r is Err && *final(self) == *old(self)
                && ns::raised(final(rt), old(rt), r->Err_0),
            final(rt).wf(),
    {
        let o = self.set_session_preset_throws(rt, val);
        ns::guarded(o)
    }

    pub fn inputs(&self) -> (r: Vec<Id>)
        ensures
            r@ == self.inputs@,
    {
        self.inputs.clone()
    }

    /// Whether `input` can be added: it is not in the session yet.
    pub fn can_add_input(&self, input: Id) -> (r: bool)
        ensures
            r == !self.inputs@.contains(input),
    {
        !holds(&self.inputs, input)
    }

    /// Adds `input`, which must be addable: adding one twice is fatal.
    pub fn add_input(&mut self, input: Id)
        requires
            !old(self).inputs@.contains(input),
        ensures
            final(self).inputs@ == old(self).inputs@.push(input),
            *final(self) == (Session { inputs: final(self).inputs, ..*old(self) }),
    {
        self.inputs.push(input);
    }

    pub fn remove_input(&mut self, input: Id)
        ensures
            final(self).inputs@ == without(old(self).inputs@, input),
            *final(self) == (Session { inputs: final(self).inputs, ..*old(self) }),
    {
        self.inputs = remove_all(&self.inputs, input);
    }

    /// Adds `input` without forming connections for it. This runtime forms
    /// no connections by itself, so this is `add_input`.
    pub fn add_input_without_connections(&mut self, input: Id)
        requires
            !old(self).inputs@.contains(input),
        ensures
            final(self).inputs@ == old(self).inputs@.push(input),
            *final(self) == (Session { inputs: final(self).inputs, ..*old(self) }),
    {
        self.add_input(input)
    }

    pub fn outputs(&self) -> (r: Vec<Id>)
        ensures
            r@ == self.outputs@,
    {
        self.outputs.clone()
    }

    /// Whether `output` can be added: it is not in the session yet.
    pub fn can_add_output(&self, output: Id) -> (r: bool)
        ensures
            r == !self.outputs@.contains(output),
    {
        !holds(&self.outputs, output)
    }

    /// Adds `output`, which must be addable: adding one twice is fatal.
    pub fn add_output(&mut self, output: Id)
        requires
            !old(self).outputs@.contains(output),
        ensures
            final(self).outputs@ == old(self).outputs@.push(output),
            *final(self) == (Session { outputs: final(self).outputs, ..*old(self) }),
    {
        self.outputs.push(output);
    }

    pub fn remove_output(&mut self, output: Id)
        ensures
            final(self).outputs@ == without(old(self).outputs@, output),
            *final(self) == (Session { outputs: final(self).outputs, ..*old(self) }),
    {
        self.outputs = remove_all(&self.outputs, output);
    }

    /// Adds `output` without forming connections for it. This runtime forms
    /// no connections by itself, so this is `add_output`.
    pub fn add_output_without_connections(&mut self, output: Id)
        requires
            !old(self).outputs@.contains(output),
        ensures
            final(self).outputs@ == old(self).outputs@.push(output),
            *final(self) == (Session { outputs: final(self).outputs, ..*old(self) }),
    {
        self.add_output(output)
    }

    pub fn connections(&self) -> (r: Vec<Id>)
        ensures
            r@ == self.connections@,
    {
        self.connections.clone()
    }

    /// Whether `connection` can be added: it is not in the session yet.
    pub fn can_add_connection(&self, connection: Id) -> (r: bool)
        ensures
            r == !self.connections@.contains(connection),
    {
        !holds(&self.connections, connection)
    }

    /// Adds `connection`, which must be addable: adding one twice is fatal.
    pub fn add_connection(&mut self, connection: Id)
        requires
            !old(self).connections@.contains(connection),
        ensures
            final(self).connections@ == old(self).connections@.push(connection),
            *final(self) == (Session { connections: final(self).connections, ..*old(self) }),
    {
        self.connections.push(connection);
    }

    pub fn remove_connection(&mut self, connection: Id)
        ensures
            final(self).connections@ == without(old(self).connections@, connection),
            *final(self) == (Session { connections: final(self).connections, ..*old(self) }),
    {
        self.connections = remove_all(&self.connections, connection);
    }

    /// Whether session controls are supported.
    pub fn supports_controls(&self) -> (r: bool)
        ensures
            r == self.supports_controls,
    {
        self.supports_controls
    }

    /// The most controls the session takes.
    pub fn max_controls_count(&self) -> (r: isize)
        ensures
            r == self.max_controls_count,
    {
        self.max_controls_count
    }

    pub fn controls_delegate(&self) -> (r: Option<Id>)
        ensures
            r == self.controls_delegate,
    {
        self.controls_delegate
    }

    /// Sets the delegate for control events and the queue it is called on.
    pub fn set_controls_delegate(&mut self, val: Option<Id>, queue: Option<Id>)
        ensures
            *final(self) == (Session {
                controls_delegate: val,
                controls_delegate_queue: queue,
                ..*old(self)
            }),
    {
        self.controls_delegate = val;
        self.controls_delegate_queue = queue;
    }

    pub fn controls_delegate_cb_queue(&self) -> (r: Option<Id>)
        ensures
            r == self.controls_delegate_queue,
    {
        self.controls_delegate_queue
    }

    pub fn controls(&self) -> (r: Vec<Id>)
        ensures
            r@ == self.controls@,
    {
        self.controls.clone()
    }

    /// Whether a control can be added: controls are supported, it is not in
    /// the session yet, and there is room under the maximum.
    pub fn can_add_control(&self, val: Id) -> (r: bool)
        ensures
            r == (self.supports_controls && !self.controls@.contains(val) && self.controls@.len()
                < self.max_controls_count),
    {
        self.supports_controls && !holds(&self.controls, val)
            && (self.controls.len() as u128) < (if self.max_controls_count < 0 { 0 } else { self.max_controls_count as u128 })
    }

    /// The raw call: a control that cannot be added raises.
    pub fn add_control_throws(&mut self, rt: &mut Runtime, val: Id) -> (r: Outcome<()>)
        requires
            old(rt).wf(),
            old(rt).scope_depth() > 0,
        ensures
            final(rt).wf(),
            old(self).can_add_control_spec(val) ==> r is Returned && final(self).controls@
                == old(self).controls@.push(val) && *final(self) == (Session {
                controls: final(self).controls,
                ..*old(self)
            }) && *final(rt) == *old(rt),
            !old(self).can_add_control_spec(val) ==> r is Raised && *final(self) == *old(self)
                && ns::raised(final(rt), old(rt), r->Raised_0),
    {
        if self.can_add_control(val) {
            self.controls.push(val);
            Outcome::Returned(())
        } else {
            rt.raise()
        }
    }

    pub open spec fn can_add_control_spec(&self, val: Id) -> bool {
        self.supports_controls && !self.controls@.contains(val) && self.controls@.len()
            < self.max_controls_count
    }

    /// Adds a control, turning the exception raised for one that cannot be
    /// added into an error.
    pub fn add_control(&mut self, rt: &mut Runtime, val: Id) -> (r: ExResult<()>)
        requires
            old(rt).wf(),
            old(rt).scope_depth() > 0,
        ensures
            final(rt).wf(),
            old(self).can_add_control_spec(val) ==> r is Ok && final(self).controls@
                == old(self).controls@.push(val) && *final(self) == (Session {
                controls: final(self).controls,
                ..*old(self)
            }),
            !old(self).can_add_control_spec(val) ==> r is Err && *final(self) == *old(self)
                && ns::raised(final(rt), old(rt), r->Err_0),
    {
        let o = self.add_control_throws(rt, val);
        ns::guarded(o)
    }

    pub fn remove_control(&mut self, val: Id)
        ensures
            final(self).controls@ == without(old(self).controls@, val),
            *final(self) == (Session { controls: final(self).controls, ..*old(self) }),
    {
        self.controls = remove_all(&self.controls, val);
    }

    /// Opens a batch of changes; batches nest.
    pub fn begin_cfg(&mut self)
        requires
            old(self).cfg_depth < u32::MAX,
        ensures
            *final(self) == (Session { cfg_depth: (old(self).cfg_depth + 1) as u32, ..*old(self) }),
    {
        self.cfg_depth = self.cfg_depth + 1;
    }

    /// Closes the innermost open batch; with none open it does nothing.
    pub fn commit_cfg(&mut self)
        ensures
            *final(self) == (Session {
                cfg_depth: if old(self).cfg_depth > 0 {
                    (old(self).cfg_depth - 1) as u32
                } else {
                    0
                },
                ..*old(self)
            }),
    {
        if self.cfg_depth > 0 {
            self.cfg_depth = self.cfg_depth - 1;
        }
    }

    /// Runs `config` once inside one batch of changes: the batch opens
    /// before it, `config` runs on the session, and the batch closes after it.
    pub fn configure<F: FnOnce(&mut Session)>(&mut self, config: F)
        requires
            old(self).cfg_depth < u32::MAX,
            forall|s: &mut Session| config.requires((s,)),
        ensures
            exists|m: &mut Session|
                *m == (Session { cfg_depth: (old(self).cfg_depth + 1) as u32, ..*old(self) })
                    && config.ensures((m,), ()) && *final(self) == (Session {
                    cfg_depth: if final(m).cfg_depth > 0 {
                        (final(m).cfg_depth - 1) as u32
                    } else {
                        0
                    },
                    ..*final(m)
                }),
    {
        self.begin_cfg();
        config(self);
        self.commit_cfg();
    }

    pub fn is_running(&self) -> (r: bool)
        ensures
            r == self.running,
    {
        self.running
    }

    pub fn is_interrupted(&self) -> (r: bool)
        ensures
            r == self.interrupted,
    {
        self.interrupted
    }

    pub fn start_running(&mut self)
        ensures
            *final(self) == (Session { running: true, ..*old(self) }),
    {
        self.running = true;
    }

    pub fn stop_running(&mut self)
        ensures
            *final(self) == (Session { running: false, ..*old(self) }),
    {
        self.running = false;
    }

    /// Whether the camera can be used while multitasking.
    pub fn is_multitasking_camera_access_supported(&self) -> (r: bool)
        ensures
            r == self.multitasking_supported,
    {
        self.multitasking_supported
    }

    pub fn is_multitasking_camera_access_enabled(&self) -> (r: bool)
        ensures
            r == self.multitasking_enabled,
    {
        self.multitasking_enabled
    }

    /// Enables camera use while multitasking; it stays off where unsupported.
    pub fn set_multitasking_camera_access_enabled(&mut self, val: bool)
        ensures
            *final(self) == (Session {
                multitasking_enabled: val && old(self).multitasking_supported,
                ..*old(self)
            }),
    {
        self.multitasking_enabled = val && self.multitasking_supported;
    }

    pub fn uses_app_audio_session(&self) -> (r: bool)
        ensures
            r == self.uses_app_audio_session,
    {
        self.uses_app_audio_session
    }

    pub fn set_uses_app_audio_session(&mut self, val: bool)
        ensures
            *final(self) == (Session { uses_app_audio_session: val, ..*old(self) }),
    {
        self.uses_app_audio_session = val;
    }

    pub fn automatically_configures_app_audio_session(&self) -> (r: bool)
        ensures
            r == self.auto_configures_app_audio_session,
    {
        self.auto_configures_app_audio_session
    }

    pub fn set_automatically_configures_app_audio_session(&mut self, val: bool)
        ensures
            *final(self) == (Session { auto_configures_app_audio_session: val, ..*old(self) }),
    {
        self.auto_configures_app_audio_session = val;
    }

    pub fn configures_application_audio_session_to_mix_with_others(&self) -> (r: bool)
        ensures
            r == self.mixes_with_others,
    {
        self.mixes_with_others
    }

    pub fn set_configures_application_audio_session_to_mix_with_others(&mut self, val: bool)
        ensures
            *final(self) == (Session { mixes_with_others: val, ..*old(self) }),
    {
        self.mixes_with_others = val;
    }

    pub fn automatically_configures_capture_device_for_wide_color(&self) -> (r: bool)
        ensures
            r == self.auto_wide_color,
    {
        self.auto_wide_color
    }

    pub fn set_automatically_configures_capture_device_for_wide_color(&mut self, val: bool)
        ensures
            *final(self) == (Session { auto_wide_color: val, ..*old(self) }),
    {
        self.auto_wide_color = val;
    }

    /// The clock that the session's timestamps follow, if any.
    pub fn sync_clock(&self) -> (r: Option<Id>)
        ensures
            r == self.sync_clock,
    {
        self.sync_clock
    }
}

/// A session that can run several cameras at once.
pub struct MultiCamSession {
    pub session: Session,
}

impl MultiCamSession {
    /// Whether this device can run several cameras at once; this runtime
    /// has no such hardware.
    pub fn is_multicam_supported() -> (r: bool)
        ensures
            !r,
    {
        false
    }
}

/// Connects input ports to an output or to a preview layer.
pub struct Connection {
    pub input_ports: Vec<Id>,
    pub output: Option<Id>,
    pub preview_layer: Option<Id>,
    pub audio_channels: Vec<Id>,
    pub enabled: bool,
    pub mirroring_supported: bool,
    pub mirrored: bool,
    pub auto_adjusts_mirroring: bool,
    pub field_mode_supported: bool,
    pub preferred_stabilization: VideoStabilizationMode,
    pub active_stabilization: VideoStabilizationMode,
    pub intrinsic_matrix_supported: bool,
    pub intrinsic_matrix_enabled: bool,
}

impl Connection {
    pub open spec fn fresh(&self) -> bool {
        &&& self.audio_channels@.len() == 0
        &&& self.enabled
        &&& !self.mirroring_supported
        &&& !self.mirrored
        &&& self.auto_adjusts_mirroring
        &&& !self.field_mode_supported
        &&& self.preferred_stabilization == VideoStabilizationMode::Off
        &&& self.active_stabilization == VideoStabilizationMode::Off
        &&& !self.intrinsic_matrix_supported
        &&& !self.intrinsic_matrix_enabled
    }

    fn make(input_ports: Vec<Id>, output: Option<Id>, preview_layer: Option<Id>) -> (r: Connection)
        ensures
            r.input_ports@ == input_ports@,
            r.output == output,
            r.preview_layer == preview_layer,
            r.fresh(),
    {
        Connection {
            input_ports,
            output,
            preview_layer,
            audio_channels: Vec::new(),
            enabled: true,
            mirroring_supported: false,
            mirrored: false,
            auto_adjusts_mirroring: true,
            field_mode_supported: false,
            preferred_stabilization: VideoStabilizationMode::Off,
            active_stabilization: VideoStabilizationMode::Off,
            intrinsic_matrix_supported: false,
            intrinsic_matrix_enabled: false,
        }
    }

    /// A connection object, allocated and waiting for its initialisation.
    pub fn allocate() -> (r: A<Connection>) {
        A::allocate()
    }

    /// A connection from the ports of the array `input` to `output`.
    pub fn with_ports(rt: &Runtime, input: &ns::Array<Type>, output: Id) -> (r: Connection)
        requires
            rt.wf(),
            rt.valid(input.handle()),
        ensures
            addrs(r.input_ports@) == rt.elems(input.handle()),
            r.output == Some(output),
            r.preview_layer is None,
            r.fresh(),
    {
        Self::allocate().init_with_ports(rt, input, output)
    }

    /// A connection from one port to a preview layer.
    pub fn with_preview_layer(input: Id, layer: Id) -> (r: Connection)
        ensures
            r.input_ports@ == seq![input],
            r.output is None,
            r.preview_layer == Some(layer),
            r.fresh(),
    {
        Self::allocate().init_with_port_preview_layer(input, layer)
    }

    pub fn input_ports(&self) -> (r: Vec<Id>)
        ensures
            r@ == self.input_ports@,
    {
        self.input_ports.clone()
    }

    pub fn audio_channels(&self) -> (r: Vec<Id>)
        ensures
            r@ == self.audio_channels@,
    {
        self.audio_channels.clone()
    }

    pub fn output(&self) -> (r: Option<Id>)
        ensures
            r == self.output,
    {
        self.output
    }

    pub fn video_preview_layer(&self) -> (r: Option<Id>)
        ensures
            r == self.preview_layer,
    {
        self.preview_layer
    }

    pub fn is_enabled(&self) -> (r: bool)
        ensures
            r == self.enabled,
    {
        self.enabled
    }

    pub fn set_enabled(&mut self, val: bool)
        ensures
            *final(self) == (Connection { enabled: val, ..*old(self) }),
    {
        self.enabled = val;
    }

    /// A connection is active while it is enabled.
    pub fn is_active(&self) -> (r: bool)
        ensures
            r == self.enabled,
    {
        self.enabled
    }

    pub fn is_video_mirroring_supported(&self) -> (r: bool)
        ensures
            r == self.mirroring_supported,
    {
        self.mirroring_supported
    }

    pub fn is_video_mirrored(&self) -> (r: bool)
        ensures
            r == self.mirrored,
    {
        self.mirrored
    }

    /// Mirrors the video where mirroring is supported; elsewhere it stays unmirrored.
    pub fn set_video_mirrored(&mut self, val: bool)
        ensures
            *final(self) == (Connection { mirrored: val && old(self).mirroring_supported, ..*old(self) }),
    {
        self.mirrored = val && self.mirroring_supported;
    }

    pub fn automatically_adjusts_video_mirroring(&self) -> (r: bool)
        ensures
            r == self.auto_adjusts_mirroring,
    {
        self.auto_adjusts_mirroring
    }

    pub fn set_automatically_adjusts_video_mirroring(&mut self, val: bool)
        ensures
            *final(self) == (Connection { auto_adjusts_mirroring: val, ..*old(self) }),
    {
        self.auto_adjusts_mirroring = val;
    }

    pub fn is_video_field_mode_supported(&self) -> (r: bool)
        ensures
            r == self.field_mode_supported,
    {
        self.field_mode_supported
    }

    pub fn preferred_video_stabilization_mode(&self) -> (r: VideoStabilizationMode)
        ensures
            r == self.preferred_stabilization,
    {
        self.preferred_stabilization
    }

    pub fn set_preferred_video_stabilization_mode(&mut self, val: VideoStabilizationMode)
        ensures
            *final(self) == (Connection { preferred_stabilization: val, ..*old(self) }),
    {
        self.preferred_stabilization = val;
    }

    pub fn active_video_stabilization_mode(&self) -> (r: VideoStabilizationMode)
        ensures
            r == self.active_stabilization,
    {
        self.active_stabilization
    }

    pub fn set_active_video_stabilization_mode(&mut self, val: VideoStabilizationMode)
        ensures
            *final(self) == (Connection { active_stabilization: val, ..*old(self) }),
    {
        self.active_stabilization = val;
    }

    pub fn is_camera_intrinsic_matrix_delivery_supported(&self) -> (r: bool)
        ensures
            r == self.intrinsic_matrix_supported,
    {
        self.intrinsic_matrix_supported
    }

    pub fn is_camera_intrinsic_matrix_delivery_enabled(&self) -> (r: bool)
        ensures
            r == self.intrinsic_matrix_enabled,
    {
        self.intrinsic_matrix_enabled
    }

    /// Turns delivery on where it is supported; elsewhere it stays off.
    pub fn set_camera_intrinsic_matrix_delivery_enabled(&mut self, val: bool)
        ensures
            *final(self) == (Connection { intrinsic_matrix_enabled: val && old(self).intrinsic_matrix_supported, ..*old(self) }),
    {
        self.intrinsic_matrix_enabled = val && self.intrinsic_matrix_supported;
    }
}

impl A<Connection> {
    /// Initialises the connection from the ports of the array `input` to `output`.
    pub fn init_with_ports(self, rt: &Runtime, input: &ns::Array<Type>, output: Id) -> (r: Connection)
        requires
            rt.wf(),
            rt.valid(input.handle()),
        ensures
            addrs(r.input_ports@) == rt.elems(input.handle()),
            r.output == Some(output),
            r.preview_layer is None,
            r.fresh(),
    {
        let ports = rt.collection_ids(input.id());
        Connection::make(ports, Some(output), None)
    }

    /// Initialises the connection from one port to a preview layer.
    pub fn init_with_port_preview_layer(self, input: Id, layer: Id) -> (r: Connection)
        ensures
            r.input_ports@ == seq![input],
            r.output is None,
            r.preview_layer == Some(layer),
            r.fresh(),
    {
        let mut ports: Vec<Id> = Vec::new();
        ports.push(input);
        proof {
            assert(ports@ =~= seq![input]);
        }
        Connection::make(ports, None, Some(layer))
    }
}

/// One audio channel of a connection.
pub struct AudioChannel {
    pub enabled: bool,
}

impl AudioChannel {
    pub fn is_enabled(&self) -> (r: bool)
        ensures
            r == self.enabled,
    {
        self.enabled
    }

    pub fn set_enabled(&mut self, val: bool)
        ensures
            *final(self) == (AudioChannel { enabled: val, ..*old(self) }),
    {
        self.enabled = val;
    }
}

/// What the owner of a session's controls is told. Applications implement it.
pub trait ControlsDelegate {
    /// The controls became active and can be used.
    fn session_controls_did_become_active(&mut self, session: &mut Session);

    /// The controls are about to fill the screen.
    fn session_controls_will_enter_fullscreen_appearance(&mut self, session: &mut Session);

    /// The controls are about to leave the full screen.
    fn session_controls_will_exit_fullscreen_appearance(&mut self, session: &mut Session);

    /// The controls became inactive.
    fn session_controls_did_become_inactive(&mut self, session: &mut Session);
}

/// How heavily the system is loaded.
#[derive(Clone, Copy, Debug, PartialEq, Eq, Structural)]
pub enum Level {
    Nominal,
    Fair,
    Serious,
    Critical,
    Shutdown,
}

/// What adds to the system's load.
#[derive(Clone, Copy, Debug, PartialEq, Eq, Structural)]
pub enum Factors {
    /// No factor.
    Nothing,
    SystemTemperature,
    PeakPower,
    DepthModuleTemperature,
}

/// The system's load as a capture device sees it.
pub struct State {
    pub level: Level,
    pub factors: Factors,
}

impl State {
    pub fn level(&self) -> (r: Level)
        ensures
            r == self.level,
    {
        self.level
    }

    pub fn factors(&self) -> (r: Factors)
        ensures
            r == self.factors,
    {
        self.factors
    }
}

} // verus!
