use wav1c::gop::{plan_gop, FrameJob, PacketStep};

fn job(index: u64, keyframe: bool, refresh: u8, ref_slot: u8, bwd_slot: u8, show: bool, q: Option<u8>, future_ref: bool, tu: bool) -> FrameJob {
    FrameJob { index, keyframe, refresh, ref_slot, bwd_slot, show, q_override: q, future_ref, tu_headers: tu }
}

#[test]
fn empty_queue_plans_nothing() {
    let p = plan_gop(&[], true, 25, false, 1, 128);
    assert!(p.jobs.is_empty());
    assert!(p.packets.is_empty());
    assert_eq!(p.base_slot, 1);
    assert!(!p.has_reference);
}

#[test]
fn without_b_frames_every_frame_stands_alone() {
    let p = plan_gop(&[0, 1], false, 25, false, 0, 128);
    assert_eq!(
        p.jobs,
        vec![
            job(0, true, 0xFF, 0, 0, true, None, false, true),
            job(1, false, 0xFF, 0, 0, true, None, false, true),
        ]
    );
    assert_eq!(p.packets, vec![PacketStep::Frame(0), PacketStep::Frame(1)]);
    assert!(p.has_reference);
}

#[test]
fn single_queued_frame_goes_to_slot_zero() {
    let p = plan_gop(&[7], true, 25, true, 1, 128);
    assert_eq!(p.jobs, vec![job(7, false, 1, 0, 0, true, None, false, true)]);
    assert_eq!(p.packets, vec![PacketStep::Frame(0)]);
    assert_eq!(p.base_slot, 0);
}

#[test]
fn first_gop_codes_keyframe_then_hidden_forward_reference() {
    let p = plan_gop(&[0, 1, 2], true, 25, false, 0, 128);
    assert_eq!(
        p.jobs,
        vec![
            job(0, true, 1, 0, 0, true, None, false, true),
            job(2, false, 2, 0, 1, false, None, false, true),
            job(1, false, 0, 0, 1, true, Some(144), true, false),
        ]
    );
    assert_eq!(
        p.packets,
        vec![PacketStep::Frame(0), PacketStep::Joined(1, 2), PacketStep::ShowExisting(1, 2)]
    );
    assert_eq!(p.base_slot, 1);
}

#[test]
fn later_gop_ping_pongs_the_slots() {
    let p = plan_gop(&[3, 4, 5], true, 25, true, 1, 250);
    assert_eq!(
        p.jobs,
        vec![
            job(5, false, 1, 1, 0, false, None, false, true),
            job(3, false, 0, 1, 0, true, Some(255), true, false),
            job(4, false, 0, 1, 0, true, Some(255), true, false),
        ]
    );
    assert_eq!(
        p.packets,
        vec![PacketStep::Joined(0, 1), PacketStep::WithTuHeaders(2), PacketStep::ShowExisting(0, 5)]
    );
    assert_eq!(p.base_slot, 0);
}

#[test]
fn keyint_boundary_restarts_the_gop() {
    let p = plan_gop(&[4, 5], true, 4, true, 1, 100);
    assert_eq!(
        p.jobs,
        vec![
            job(4, true, 1, 0, 0, true, None, false, true),
            job(5, false, 2, 0, 1, false, None, false, true),
        ]
    );
    assert_eq!(p.packets, vec![PacketStep::Frame(0), PacketStep::Frame(1), PacketStep::ShowExisting(1, 5)]);
    assert_eq!(p.base_slot, 1);
}
