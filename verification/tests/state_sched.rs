use dsv::bitwriter::BitWriter;
use dsv::config::{GdbConfig, TypesConfig};
use dsv::error::GdbError;
use dsv::fx32::Vec3p;
use dsv::ph::{actor_targets, decode_actor_table, fetch_plan, PhActorManager, PhFetch, PhState,
    RequestedData};
use dsv::pod::{Bool, Ptr};
use dsv::sched::{
    cycle_decision, handle_ph_command, next_multiple_of_u64, next_stage, Command, ControlAction,
    CycleDecision, CycleStage, PhCommand, Scheduler,
};
use dsv::state::{State, UpdateAction};
use dsv::text_field_list::TextFieldList;
use dsv::vec_ext::VecExt;

#[test]
fn cache_miss_then_hit() {
    // Querying data for an address before any successful read returns
    // "unavailable"; immediately after a successful read it returns a
    // buffer of the requested length.
    let mut st = State::new();
    assert!(st.get_data(0x1000).is_none());
    st.request(0x1000, 4);
    let mut plan = st.begin_update();
    match plan.next_action() {
        Some(UpdateAction::Read(addr, len)) => {
            assert_eq!((addr, len), (0x1000, 4));
            st.store_data(addr, vec![7; len as usize]);
        }
        other => panic!("expected a read action, got {:?}", other.is_some()),
    }
    assert!(plan.next_action().is_none());
    let data = st.get_data(0x1000).expect("cached after a successful read");
    assert_eq!(data.len(), 4);
    assert_eq!(*data, vec![7, 7, 7, 7]);
    assert!(st.get_data(0x2000).is_none());
}

#[test]
fn writes_flush_before_reads() {
    // A write registered to an address and a read registered for the
    // same address in one cycle: the write is handed out first, so the
    // read observes the just-written value.
    let mut st = State::new();
    st.request(0x1000, 4);
    st.request_write(0x1000, vec![1, 2, 3, 4]);
    st.request_write(0x2000, vec![9]);
    let mut plan = st.begin_update();
    match plan.next_action() {
        Some(UpdateAction::Write(addr, data)) => {
            assert_eq!(addr, 0x1000);
            assert_eq!(data, vec![1, 2, 3, 4]);
        }
        _ => panic!("expected the first write"),
    }
    match plan.next_action() {
        Some(UpdateAction::Write(addr, data)) => {
            assert_eq!(addr, 0x2000);
            assert_eq!(data, vec![9]);
        }
        _ => panic!("expected the second write"),
    }
    match plan.next_action() {
        Some(UpdateAction::Read(addr, len)) => assert_eq!((addr, len), (0x1000, 4)),
        _ => panic!("expected the read after all writes"),
    }
    assert!(plan.next_action().is_none());
}

#[test]
fn requests_iterate_in_address_order_and_upsert() {
    let mut st = State::new();
    st.request(0x3000, 2);
    st.request(0x1000, 4);
    st.request(0x2000, 8);
    // Re-registering an address overwrites the previous length.
    st.request(0x1000, 16);
    let mut plan = st.begin_update();
    let mut reads = Vec::new();
    while let Some(a) = plan.next_action() {
        match a {
            UpdateAction::Read(addr, len) => reads.push((addr, len)),
            _ => panic!("no writes were registered"),
        }
    }
    assert_eq!(reads, vec![(0x1000, 16), (0x2000, 8), (0x3000, 2)]);
}

#[test]
fn pending_writes_drain_once() {
    let mut st = State::new();
    st.request_write(0x10, vec![1]);
    let mut plan = st.begin_update();
    assert!(matches!(plan.next_action(), Some(UpdateAction::Write(0x10, _))));
    assert!(plan.next_action().is_none());
    // The next cycle has nothing left to flush.
    let mut plan2 = st.begin_update();
    assert!(plan2.next_action().is_none());
}

#[test]
fn scheduler_tick_snaps_forward() {
    assert_eq!(next_multiple_of_u64(0, 4), 0);
    assert_eq!(next_multiple_of_u64(10, 4), 12);
    assert_eq!(next_multiple_of_u64(8, 4), 8);

    let mut s = Scheduler::new(0);
    // A slow first cycle: the schedule snaps to the next tick boundary
    // instead of drifting by a fixed period.
    let t1 = s.advance_to_tick(20_000_000);
    assert_eq!(t1, 33_333_334);
    let t2 = s.advance_to_tick(33_333_334);
    assert_eq!(t2, 33_333_334);
    let t3 = s.advance_to_tick(40_000_000);
    assert_eq!(t3, 50_000_001);
}

#[test]
fn cycle_decisions() {
    assert_eq!(cycle_decision(false, None), CycleDecision::Teardown);
    assert_eq!(
        cycle_decision(true, Some(&Command::Disconnect)),
        CycleDecision::HandleCommand(ControlAction::Disconnect)
    );
    assert_eq!(cycle_decision(true, None), CycleDecision::RunCycle);

    assert_eq!(next_stage(&CycleStage::Halt), Some(CycleStage::Update));
    assert_eq!(next_stage(&CycleStage::Update), Some(CycleStage::Resume));
    assert_eq!(next_stage(&CycleStage::Resume), Some(CycleStage::Sleep));
    assert_eq!(next_stage(&CycleStage::Sleep), None);
}

#[test]
fn ph_command_actions() {
    assert_eq!(handle_ph_command(&PhCommand::Disconnect), ControlAction::Disconnect);
    assert_eq!(handle_ph_command(&PhCommand::StopExecution), ControlAction::StopExecution);
    assert_eq!(
        handle_ph_command(&PhCommand::ContinueExecution),
        ControlAction::ContinueExecution
    );
    let ph = PhState::default();
    assert_eq!(ph.handle_command(&PhCommand::StopExecution), ControlAction::StopExecution);
}

#[test]
fn ph_state_position() {
    let mut ph = PhState::default();
    ph.set_position(1, 2, 3);
    assert_eq!((ph.x, ph.y, ph.z), (1, 2, 3));
}

#[test]
fn actor_table_decoding() {
    let bytes = [0x10, 0x00, 0x00, 0x02, 0x00, 0x00, 0x00, 0x00];
    let table = decode_actor_table(&bytes).unwrap();
    assert_eq!(table, vec![0x02000010, 0]);
    assert!(matches!(decode_actor_table(&bytes[..6]), Err(GdbError::LengthMismatch)));
}

#[test]
fn actor_target_selection() {
    // Indices beyond the capacity and null table slots are skipped.
    let addrs = vec![0x10, 0, 0x30];
    let idxs = vec![0u16, 1, 2, 5];
    let targets = actor_targets(3, &addrs, &idxs);
    assert_eq!(targets, vec![(0u16, 0x10u32), (2, 0x30)]);
}

#[test]
fn fetch_plan_follows_requests() {
    let mut req = RequestedData::default();
    assert_eq!(fetch_plan(&req), Vec::<PhFetch>::new());
    req.player = true;
    assert_eq!(fetch_plan(&req), vec![PhFetch::PlayerPos]);
    req.actor_manager = true;
    assert_eq!(fetch_plan(&req), vec![PhFetch::PlayerPos, PhFetch::ActorManager]);
    req.player = false;
    assert_eq!(fetch_plan(&req), vec![PhFetch::ActorManager]);
}

#[test]
fn actor_manager_header() {
    let mut m = PhActorManager::default();
    m.set_header(0x02100000, 3, 0x02100010);
    assert_eq!(m.address, 0x02100000);
    assert_eq!(m.max_actor_count, 3);
    assert_eq!(m.actor_table_address, 0x02100010);
    assert_eq!(m.actor_addresses.len(), 3);
    assert_eq!(m.actors.len(), 3);
    m.set_actor_addresses(vec![1, 2, 3]);
    assert_eq!(m.actor_addresses, vec![1, 2, 3]);
}

#[test]
fn vector_decoding() {
    let mut bytes = Vec::new();
    bytes.extend_from_slice(&[0x00, 0x10, 0x00, 0x00]); // 4096
    bytes.extend_from_slice(&[0xff, 0xff, 0xff, 0xff]); // -1
    bytes.extend_from_slice(&[0x00, 0x00, 0x00, 0x80]); // minimum
    let v = Vec3p::from_le_bytes(&bytes).unwrap();
    assert_eq!(v.x.0, 4096);
    assert_eq!(v.y.0, -1);
    assert_eq!(v.z.0, i32::MIN);
    assert!(matches!(Vec3p::from_le_bytes(&bytes[..8]), Err(GdbError::LengthMismatch)));
}

#[test]
fn pod_cells() {
    assert!(!Bool(0).to_bool());
    assert!(Bool(3).to_bool());
    let p = Ptr::new(5);
    assert!(!p.is_null());
    assert!(Ptr::new(0).is_null());
}

#[test]
fn config_defaults() {
    let g = GdbConfig::new();
    assert_eq!(g.address, "127.0.0.1:3333");
    let t = TypesConfig::new();
    assert_eq!(t.project_root, "");
    assert!(t.include_paths.is_empty());
    assert!(t.ignore_paths.is_empty());
}

#[test]
fn bit_writer_accumulates_lsb_first() {
    let mut w = BitWriter::new();
    w.write_u8(0b101, 3).unwrap();
    w.write_u8(0b11111, 5).unwrap();
    let out = w.take_output();
    assert_eq!(out, vec![0b11111101]);
}

#[test]
fn bit_writer_slice_range() {
    let mut w = BitWriter::new();
    w.write_slice_range(&[0xab, 0xcd], 4..12).unwrap();
    let out = w.take_output();
    assert_eq!(out, vec![0xda]);
}

#[test]
fn bit_writer_whole_bytes() {
    let mut w = BitWriter::new();
    w.write_slice_range(&[0x12, 0x34, 0x56], 0..24).unwrap();
    let out = w.take_output();
    assert_eq!(out, vec![0x12, 0x34, 0x56]);
}

#[test]
fn shift_bits_left_inserts_zeros() {
    let mut v: Vec<u8> = vec![0x01];
    v.shift_bits_left(4);
    assert_eq!(v, vec![0x10, 0x00]);

    let mut w: Vec<u8> = vec![0xff];
    w.shift_bits_left(8);
    assert_eq!(w, vec![0x00, 0xff]);
}

#[test]
fn assign_bits_replaces_window() {
    let mut v: Vec<u8> = vec![0xff, 0xff];
    v.assign_bits(4, &[0x00], 0, 8).unwrap();
    assert_eq!(v, vec![0x0f, 0xf0]);

    let mut w: Vec<u8> = vec![0x00, 0x00];
    w.assign_bits(2, &[0xff], 2, 4).unwrap();
    assert_eq!(w, vec![0b00111100, 0x00]);
}

#[test]
fn text_field_list_edits() {
    let list = TextFieldList::new("fields".to_string(), vec!["one".to_string()]);
    let mut list = list
        .with_field_hint("path".to_string())
        .with_add_button_text("Add path".to_string());
    assert_eq!(list.id(), "fields");
    assert_eq!(list.field_hint().as_deref(), Some("path"));
    assert_eq!(list.add_button_text().as_deref(), Some("Add path"));
    assert_eq!(list.len(), 1);
    list.add_field();
    assert_eq!(list.len(), 2);
    assert_eq!(list.field(1), "");
    list.set_field(1, "two".to_string());
    assert_eq!(list.field(1), "two");
    list.remove_field(0);
    assert_eq!(list.len(), 1);
    assert_eq!(list.field(0), "two");
}
