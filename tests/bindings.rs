use cidre::arc::Obj;
use cidre::av::{Connection, MultiCamSession, Preset, Session, VideoStabilizationMode};
use cidre::cf;
use cidre::mtl::{
    BufBinding, Descriptor, Draw, IndexType, IndirectComputeCmd, IndirectRenderCmd, Mutability,
    PipelineBufDesc, PipelineBufDescArray, Primitive, Size,
};
use cidre::ns;
use cidre::runtime::{Id, Runtime};

#[test]
fn blit_pass_basics() {
    let mut bpd = Descriptor::new();
    let _attachments = bpd.sample_buf_attachments_mut();
}

#[test]
fn inputs_are_added_once_and_removed() {
    let mut s = Session::new(vec![Preset::High, Preset::Photo], false, 0);
    let a = Id { addr: 1 };
    let b = Id { addr: 2 };
    assert!(s.can_add_input(a));
    s.add_input(a);
    assert!(!s.can_add_input(a));
    s.add_input_without_connections(b);
    assert_eq!(s.inputs(), vec![a, b]);
    s.remove_input(a);
    assert_eq!(s.inputs(), vec![b]);
    s.add_output(a);
    s.add_connection(b);
    assert!(!s.can_add_output(a));
    assert!(!s.can_add_connection(b));
    s.remove_output(a);
    s.remove_connection(b);
    assert!(s.outputs().is_empty());
    assert!(s.connections().is_empty());
}

#[test]
fn an_unsupported_preset_raises() {
    let mut rt = Runtime::new();
    rt.push_scope();
    let mut s = Session::new(vec![Preset::High, Preset::Photo], false, 0);
    assert_eq!(s.session_preset(), Preset::High);
    assert!(s.set_session_preset(&mut rt, Preset::Photo).is_ok());
    assert_eq!(s.session_preset(), Preset::Photo);
    assert!(!s.can_set_session_preset(Preset::Low));
    assert!(s.set_session_preset(&mut rt, Preset::Low).is_err());
    assert_eq!(s.session_preset(), Preset::Photo);
    rt.pop_scope();
    assert_eq!(rt.releases_of(Id { addr: 0 }), 1);
}

#[test]
fn controls_respect_the_maximum() {
    let mut rt = Runtime::new();
    rt.push_scope();
    let mut s = Session::new(vec![], true, 1);
    assert!(s.supports_controls());
    assert_eq!(s.max_controls_count(), 1);
    assert!(s.add_control(&mut rt, Id { addr: 3 }).is_ok());
    assert!(!s.can_add_control(Id { addr: 4 }));
    assert!(s.add_control(&mut rt, Id { addr: 4 }).is_err());
    s.remove_control(Id { addr: 3 });
    assert!(s.controls().is_empty());
    let mut none = Session::new(vec![], false, 5);
    assert!(none.add_control(&mut rt, Id { addr: 3 }).is_err());
    rt.pop_scope();
}

#[test]
fn session_switches() {
    let mut s = Session::new(vec![], false, 0);
    assert!(!s.is_running());
    s.start_running();
    assert!(s.is_running());
    s.stop_running();
    assert!(!s.is_running());
    assert!(!s.is_interrupted());
    s.begin_cfg();
    s.begin_cfg();
    s.commit_cfg();
    assert_eq!(s.cfg_depth, 1);
    s.commit_cfg();
    s.commit_cfg();
    assert_eq!(s.cfg_depth, 0);
    s.set_multitasking_camera_access_enabled(true);
    assert!(!s.is_multitasking_camera_access_enabled());
    assert!(!s.is_multitasking_camera_access_supported());
    assert!(s.uses_app_audio_session());
    s.set_uses_app_audio_session(false);
    assert!(!s.uses_app_audio_session());
    s.set_automatically_configures_app_audio_session(false);
    assert!(!s.automatically_configures_app_audio_session());
    s.set_configures_application_audio_session_to_mix_with_others(true);
    assert!(s.configures_application_audio_session_to_mix_with_others());
    s.set_automatically_configures_capture_device_for_wide_color(false);
    assert!(!s.automatically_configures_capture_device_for_wide_color());
    s.set_controls_delegate(Some(Id { addr: 8 }), Some(Id { addr: 9 }));
    assert_eq!(s.controls_delegate(), Some(Id { addr: 8 }));
    assert_eq!(s.controls_delegate_cb_queue(), Some(Id { addr: 9 }));
    assert_eq!(s.sync_clock(), None);
    assert!(!MultiCamSession::is_multicam_supported());
}

#[test]
fn connections_from_ports() {
    let mut rt = Runtime::new();
    let p1 = ns::Number::with_i64(&mut rt, 1);
    let p2 = ns::Number::with_i64(&mut rt, 2);
    let ports = [cf::Type::with_id(p1.id()), cf::Type::with_id(p2.id())];
    let refs: Vec<&cf::Type> = ports.iter().collect();
    let arr = ns::Array::<cf::Type>::from_slice(&mut rt, &refs);
    let mut c = Connection::with_ports(&rt, arr.get(), Id { addr: 40 });
    assert_eq!(c.input_ports(), vec![p1.id(), p2.id()]);
    assert_eq!(c.output(), Some(Id { addr: 40 }));
    assert_eq!(c.video_preview_layer(), None);
    assert!(c.audio_channels().is_empty());
    assert!(c.is_enabled() && c.is_active());
    c.set_enabled(false);
    assert!(!c.is_active());
    c.set_video_mirrored(true);
    assert!(!c.is_video_mirrored());
    c.mirroring_supported = true;
    assert!(c.is_video_mirroring_supported());
    c.set_video_mirrored(true);
    assert!(c.is_video_mirrored());
    c.set_automatically_adjusts_video_mirroring(false);
    assert!(!c.automatically_adjusts_video_mirroring());
    assert!(!c.is_video_field_mode_supported());
    c.set_preferred_video_stabilization_mode(VideoStabilizationMode::Cinematic);
    assert_eq!(c.preferred_video_stabilization_mode(), VideoStabilizationMode::Cinematic);
    c.set_active_video_stabilization_mode(VideoStabilizationMode::Standard);
    assert_eq!(c.active_video_stabilization_mode(), VideoStabilizationMode::Standard);
    c.set_camera_intrinsic_matrix_delivery_enabled(true);
    assert!(!c.is_camera_intrinsic_matrix_delivery_enabled());
    assert!(!c.is_camera_intrinsic_matrix_delivery_supported());
    let l = Connection::with_preview_layer(Id { addr: 1 }, Id { addr: 2 });
    assert_eq!(l.input_ports(), vec![Id { addr: 1 }]);
    assert_eq!(l.video_preview_layer(), Some(Id { addr: 2 }));
    assert_eq!(l.output(), None);
}

#[test]
fn indexed_triangles() {
    let mut cmd = IndirectRenderCmd::new();
    let buf = Id { addr: 5 };
    cmd.draw_indexed_triangles_u16(buf, &(3..9), &(2..4));
    assert_eq!(
        cmd.draw,
        Draw::IndexedPrimitives {
            primitive_type: Primitive::Triangle,
            index_count: 6,
            index_type: IndexType::U16,
            index_buf: BufBinding { buf, offset: 6 },
            instance_count: 2,
            base_vertex: 0,
            base_instance: 2,
        }
    );
    cmd.draw_indexed_triangles_u32(buf, &(3..9), &(4..2));
    assert_eq!(
        cmd.draw,
        Draw::IndexedPrimitives {
            primitive_type: Primitive::Triangle,
            index_count: 6,
            index_type: IndexType::U32,
            index_buf: BufBinding { buf, offset: 12 },
            instance_count: 0,
            base_vertex: 0,
            base_instance: 4,
        }
    );
    cmd.set_render_ps(Id { addr: 1 });
    cmd.set_vertex_buf_at(buf, 16, 3);
    cmd.set_fragment_buf_at(buf, 32, 30);
    assert_eq!(cmd.vertex_bufs[3], Some(BufBinding { buf, offset: 16 }));
    assert_eq!(cmd.fragment_bufs[30], Some(BufBinding { buf, offset: 32 }));
    cmd.draw_primitives(Primitive::Line, 0, 2, 1, 0);
    assert!(matches!(cmd.draw, Draw::Primitives { vertex_count: 2, .. }));
    cmd.draw_patches(3, 0, 1, buf, 0, 1, 0, buf, 0, 0);
    assert!(matches!(cmd.draw, Draw::Patches(_)));
    cmd.draw_indexed_patches(3, 0, 1, None, 0, buf, 8, 1, 0, buf, 0, 0);
    assert!(matches!(cmd.draw, Draw::IndexedPatches(_, BufBinding { offset: 8, .. })));
    cmd.reset();
    assert_eq!(cmd.draw, Draw::Nothing);
    assert_eq!(cmd.pipeline_state, None);
    assert_eq!(cmd.vertex_bufs[3], None);
}

#[test]
fn compute_commands() {
    let mut cmd = IndirectComputeCmd::new();
    let s = Size { width: 4, height: 2, depth: 1 };
    cmd.set_compute_ps(Id { addr: 1 });
    cmd.set_kernel_buf_at(Id { addr: 2 }, 0, 1);
    cmd.concurrent_dispatch_thread_groups(s, s);
    cmd.set_barrier();
    cmd.set_image_block_size(8, 8);
    cmd.set_threadgroup_memory_len_at(256, 2);
    assert_eq!(cmd.threadgroup_memory_lens[2], 256);
    assert!(cmd.barrier);
    cmd.clear_barrier();
    assert!(!cmd.barrier);
    cmd.concurrent_dispatch_threads(s, s);
    assert_eq!(cmd.image_block_size, (8, 8));
    cmd.reset();
    assert_eq!(cmd.pipeline_state, None);
    assert_eq!(cmd.threadgroup_memory_lens[2], 0);
}

#[test]
fn pipeline_buffer_descriptors() {
    let mut arr = PipelineBufDescArray::new();
    assert_eq!(arr.get(0).mutability(), Mutability::Default);
    arr.get_mut(1).set_mutability(Mutability::Immutable);
    assert_eq!(arr.get_at(1).mutability(), Mutability::Immutable);
    let mut d = PipelineBufDesc::new();
    d.set_mutability(Mutability::Mutable);
    arr.set(Some(&d), 2);
    assert_eq!(arr.get(2).mutability, Mutability::Mutable);
    arr.set(None, 1);
    assert_eq!(arr.get(1).mutability(), Mutability::Default);
    assert_eq!(Mutability::default(), Mutability::Default);
}

#[test]
fn configure_runs_inside_one_batch() {
    let mut s = Session::new(vec![], false, 0);
    let a = Id { addr: 1 };
    s.configure(|s| {
        assert_eq!(s.cfg_depth, 1);
        s.add_input(a);
    });
    assert_eq!(s.cfg_depth, 0);
    assert_eq!(s.inputs(), vec![a]);
}

#[test]
fn connections_from_allocated_objects() {
    let mut rt = Runtime::new();
    let p = ns::Number::with_i64(&mut rt, 1);
    let port = cf::Type::with_id(p.id());
    let arr = ns::Array::<cf::Type>::from_slice(&mut rt, &[&port]);
    let c = Connection::allocate().init_with_ports(&rt, arr.get(), Id { addr: 9 });
    assert_eq!(c.input_ports(), vec![p.id()]);
    assert_eq!(c.output(), Some(Id { addr: 9 }));
    let l = Connection::allocate().init_with_port_preview_layer(Id { addr: 1 }, Id { addr: 2 });
    assert_eq!(l.video_preview_layer(), Some(Id { addr: 2 }));
    assert_eq!(l.input_ports(), vec![Id { addr: 1 }]);
}

#[test]
fn raised_exceptions_are_new_objects_of_the_innermost_scope() {
    let mut rt = Runtime::new();
    let n = ns::Number::with_i64(&mut rt, 1);
    rt.push_scope();
    let mut s = Session::new(vec![Preset::High], false, 0);
    let err = s.set_session_preset(&mut rt, Preset::Low).unwrap_err();
    assert_eq!(err.id().addr, 1);
    assert_ne!(err.id(), n.id());
    rt.pop_scope();
    assert_eq!(rt.releases_of(err.id()), 1);
}
