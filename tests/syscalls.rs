use std::collections::HashMap;

use mitosis::child::FaultStep;
use mitosis::conn::{ConnErr, RDMAErr};
use mitosis::core_syscall_handler::{
    FaultOutcome, LibMITOSISCmd, MitosisSysCallHandler, ResumeAction, ResumeEvent, ResumeState,
};
use mitosis::fast_descriptors::{FastDescriptor, VMAPageTable};
use mitosis::rdma::RDMADescriptor;
use mitosis::reg::RegDescriptor;
use mitosis::rpc::DescriptorLookupReply;
use mitosis::shadow_process_service::{PrepareMode, ShadowProcessService};
use mitosis::vma::VMADescriptor;

const GID: &[u8] = b"fe80:0000:0000:0000:248a:0703:009c:7c94";
const BASE: u64 = 0x4000_0000;
const PAGE_A: u64 = 0x0010_0000;
const PAGE_B: u64 = 0x0020_0000;

/// The parent's physical memory: page `A` filled with `'A'`, page `B` with `'B'`.
fn parent_memory() -> HashMap<u64, Vec<u8>> {
    let mut m = HashMap::new();
    m.insert(PAGE_A, vec![b'A'; 4096]);
    m.insert(PAGE_B, vec![b'B'; 4096]);
    m
}

/// One anonymous 8 KiB area at `BASE`.
fn captured() -> FastDescriptor {
    let mut t = VMAPageTable::new();
    t.add_one(0, PAGE_A);
    t.add_one(0x1000, PAGE_B);
    FastDescriptor {
        regs: RegDescriptor::zeroed(),
        page_table: vec![t],
        vma: vec![VMADescriptor { start: BASE, end: BASE + 8192, flags: 0x73, prot: 3, offset: 0 }],
        machine_info: RDMADescriptor { gid: GID.to_vec(), service_id: 1, qd_hint: 1, rkey: 77, dct_num: 5, dct_key: 6 },
    }
}

/// Runs a fault the way the fault path does, reading from `memory`.
fn read_byte(h: &MitosisSysCallHandler, memory: &HashMap<u64, Vec<u8>>, va: u64) -> Option<u8> {
    match h.handle_page_fault(va) {
        FaultStep::Fetch { remote_pa, .. } => {
            let page = memory.get(&remote_pa)?;
            match MitosisSysCallHandler::complete_page_fault(Ok(()), remote_pa) {
                FaultOutcome::Installed(_) => Some(page[(va % 4096) as usize]),
                FaultOutcome::Segv => None,
            }
        }
        _ => None,
    }
}

fn prepared_service(key: usize) -> ShadowProcessService {
    let mut service = ShadowProcessService::new();
    let mut parent = MitosisSysCallHandler::open();
    assert_eq!(parent.syscall_prepare(&mut service, key, captured(), 1, false), 0);
    service
}

#[test]
fn local_round_trip() {
    let memory = parent_memory();
    let mut service = ShadowProcessService::new();
    let mut parent = MitosisSysCallHandler::open();
    assert_eq!(parent.syscall_prepare(&mut service, 42, captured(), 1, false), 0);
    assert_eq!(parent.prepared_key(), Some(42));
    let mut child = MitosisSysCallHandler::open();
    assert_eq!(child.syscall_local_resume(&service, 42), 0);
    assert!(child.has_resumed());
    assert_eq!(read_byte(&child, &memory, BASE), Some(b'A'));
    assert_eq!(read_byte(&child, &memory, BASE + 0x1000), Some(b'B'));
}

#[test]
fn remote_round_trip() {
    let memory = parent_memory();
    let service = prepared_service(42);
    let mut child = MitosisSysCallHandler::open();
    let (state, action) =
        child.syscall_local_resume_w_rpc(ResumeState::Idle, ResumeEvent::Start { handler_id: 42 });
    assert_eq!(state, ResumeState::AwaitReply { handler_id: 42 });
    let payload = match action {
        ResumeAction::SendQuery { payload } => payload,
        other => panic!("expected a query, got {:?}", other),
    };
    // the peer answers the query from its registry
    let key = mitosis::rpc::decode_query(&payload).unwrap() as usize;
    let buf = service.query_descriptor_buf(key).unwrap().clone();
    let reply = DescriptorLookupReply { addr: 0x9000_0000, len: buf.len() as u64, rkey: 77 };
    let (state, action) = child.syscall_local_resume_w_rpc(state, ResumeEvent::Reply(Some(reply.serialize())));
    assert_eq!(state, ResumeState::AwaitFetch { handler_id: 42 });
    match action {
        ResumeAction::Fetch(l) => assert_eq!(l, reply),
        other => panic!("expected a fetch, got {:?}", other),
    }
    let (state, action) = child.syscall_local_resume_w_rpc(state, ResumeEvent::Fetched(Some(buf)));
    assert_eq!(state, ResumeState::Idle);
    assert!(matches!(action, ResumeAction::Applied));
    assert_eq!(read_byte(&child, &memory, BASE), Some(b'A'));
    assert_eq!(read_byte(&child, &memory, BASE + 0x1000), Some(b'B'));
}

#[test]
fn unknown_key_resume_fails() {
    let service = prepared_service(42);
    let mut child = MitosisSysCallHandler::open();
    assert_eq!(child.syscall_local_resume(&service, 7), -1);
    assert!(!child.has_resumed());
    assert!(child.resumed_descriptor().is_none());
    assert!(matches!(child.handle_page_fault(BASE), FaultStep::Unmapped));
}

#[test]
fn double_prepare_fails() {
    let mut service = ShadowProcessService::new();
    let mut h = MitosisSysCallHandler::open();
    assert_eq!(h.syscall_prepare(&mut service, 1, captured(), 1, false), 0);
    assert_eq!(h.syscall_prepare(&mut service, 1, captured(), 1, false), -1);
    assert_eq!(h.syscall_prepare(&mut service, 2, captured(), 1, false), -1);
    assert!(service.query_descriptor(2).is_none());
}

#[test]
fn prepare_of_taken_key_fails() {
    let mut service = prepared_service(1);
    let mut other = MitosisSysCallHandler::open();
    assert_eq!(other.syscall_prepare(&mut service, 1, captured(), 1, true), -1);
    assert_eq!(other.prepared_key(), None);
}

#[test]
fn discovery_timeout_fails() {
    let mut child = MitosisSysCallHandler::open();
    let (state, _) = child.syscall_local_resume_w_rpc(ResumeState::Idle, ResumeEvent::Start { handler_id: 42 });
    let (state, action) = child.syscall_local_resume_w_rpc(state, ResumeEvent::Reply(None));
    assert_eq!(state, ResumeState::Idle);
    assert!(matches!(action, ResumeAction::Failed));
    assert!(!child.has_resumed());
}

#[test]
fn malformed_reply_and_fetch_fail() {
    let mut child = MitosisSysCallHandler::open();
    let (_, action) = child.syscall_local_resume_w_rpc(
        ResumeState::AwaitReply { handler_id: 1 },
        ResumeEvent::Reply(Some(vec![1, 2, 3])),
    );
    assert!(matches!(action, ResumeAction::Failed));
    let (_, action) =
        child.syscall_local_resume_w_rpc(ResumeState::AwaitFetch { handler_id: 1 }, ResumeEvent::Fetched(None));
    assert!(matches!(action, ResumeAction::Failed));
    let (_, action) = child.syscall_local_resume_w_rpc(
        ResumeState::AwaitFetch { handler_id: 1 },
        ResumeEvent::Fetched(Some(vec![0u8; 100])),
    );
    assert!(matches!(action, ResumeAction::Failed));
    let (_, action) = child.syscall_local_resume_w_rpc(ResumeState::Idle, ResumeEvent::Reply(None));
    assert!(matches!(action, ResumeAction::Failed));
    assert!(!child.has_resumed());
}

#[test]
fn fault_after_unregister_still_served() {
    let memory = parent_memory();
    let mut service = prepared_service(42);
    let mut child = MitosisSysCallHandler::open();
    assert_eq!(child.syscall_local_resume(&service, 42), 0);
    service.unregister(42);
    assert!(service.query_descriptor(42).is_none());
    assert_eq!(read_byte(&child, &memory, BASE + 0x1000), Some(b'B'));
}

#[test]
fn resumed_caller_cannot_resume_again() {
    let service = prepared_service(42);
    let mut child = MitosisSysCallHandler::open();
    assert_eq!(child.syscall_local_resume(&service, 42), 0);
    assert_eq!(child.syscall_local_resume(&service, 42), -1);
    let (state, action) =
        child.syscall_local_resume_w_rpc(ResumeState::Idle, ResumeEvent::Start { handler_id: 42 });
    assert_eq!(state, ResumeState::Idle);
    assert!(matches!(action, ResumeAction::Failed));
}

#[test]
fn query_lives_from_prepare_to_unregister() {
    let mut service = ShadowProcessService::new();
    assert!(service.query_descriptor(5).is_none());
    let mut h = MitosisSysCallHandler::open();
    assert_eq!(h.syscall_prepare(&mut service, 5, captured(), 3, true), 0);
    let d = service.query_descriptor(5).unwrap();
    assert_eq!(d.page_table[0].inner_pg_table, captured().page_table[0].inner_pg_table);
    let buf = service.query_descriptor_buf(5).unwrap();
    assert_eq!(buf.len(), captured().serialization_buf_len());
    let back = FastDescriptor::deserialize(buf).unwrap();
    assert_eq!(back.vma, captured().vma);
    h.close(&mut service);
    assert!(service.query_descriptor(5).is_none());
    assert!(service.query_descriptor_buf(5).is_none());
}

#[test]
fn registry_add_and_unregister() {
    let mut service = ShadowProcessService::new();
    assert_eq!(service.add_myself_copy(3, captured(), 8), Some(()));
    assert_eq!(service.add_myself_cow(3, captured(), 8), None);
    assert_eq!(service.add_myself_cow(4, captured(), 9), Some(()));
    assert!(service.query_descriptor(3).is_some());
    service.unregister(3);
    service.unregister(3);
    assert!(service.query_descriptor(3).is_none());
    assert!(service.query_descriptor(4).is_some());
    assert_eq!(PrepareMode::Cow, PrepareMode::Cow);
}

#[test]
fn connect_checks_the_gid() {
    let h = MitosisSysCallHandler::open();
    let t = h.syscall_connect_session(GID, 1).unwrap();
    assert_eq!(t.target_gid, GID.to_vec());
    assert_eq!((t.remote_service_id, t.qd_hint), (1, 1));
    assert_eq!(h.syscall_connect_session(b"fe80::1", 0).err(), Some(ConnErr::PathNotFound));
}

#[test]
fn commands_by_number() {
    assert_eq!(LibMITOSISCmd::from_raw(0), Some(LibMITOSISCmd::Nil));
    assert_eq!(LibMITOSISCmd::from_raw(1), Some(LibMITOSISCmd::Prepare));
    assert_eq!(LibMITOSISCmd::from_raw(2), Some(LibMITOSISCmd::ResumeLocal));
    assert_eq!(LibMITOSISCmd::from_raw(3), Some(LibMITOSISCmd::ResumeRemote));
    assert_eq!(LibMITOSISCmd::from_raw(4), Some(LibMITOSISCmd::Connect));
    assert_eq!(LibMITOSISCmd::from_raw(5), None);
}

#[test]
fn failed_read_ends_in_segv() {
    assert_eq!(MitosisSysCallHandler::complete_page_fault(Err(RDMAErr::Timeout), 0x1000), FaultOutcome::Segv);
    assert_eq!(
        MitosisSysCallHandler::complete_page_fault(Err(RDMAErr::RDMAErr), 0x1000),
        FaultOutcome::Segv
    );
    assert_eq!(MitosisSysCallHandler::complete_page_fault(Ok(()), 0x1000), FaultOutcome::Installed(0x1000));
}

#[test]
fn remote_fetch_of_flat_bytes_fails() {
    let flat = captured().to_descriptor();
    let mut buf = vec![0u8; flat.serialization_buf_len()];
    assert!(flat.serialize(&mut buf));
    let mut child = MitosisSysCallHandler::open();
    let (_, action) =
        child.syscall_local_resume_w_rpc(ResumeState::AwaitFetch { handler_id: 1 }, ResumeEvent::Fetched(Some(buf)));
    assert!(matches!(action, ResumeAction::Failed));
    assert!(!child.has_resumed());
}

#[test]
fn refused_resume_keeps_the_first_one() {
    let service = prepared_service(42);
    let mut other = MitosisSysCallHandler::open();
    assert_eq!(other.syscall_prepare(&mut ShadowProcessService::new(), 9, captured(), 1, false), 0);
    let mut child = MitosisSysCallHandler::open();
    assert_eq!(child.syscall_local_resume(&service, 42), 0);
    let buf = service.query_descriptor_buf(42).unwrap().clone();
    let (_, action) =
        child.syscall_local_resume_w_rpc(ResumeState::AwaitFetch { handler_id: 9 }, ResumeEvent::Fetched(Some(buf)));
    assert!(matches!(action, ResumeAction::Failed));
    let image = child.resumed_descriptor().unwrap();
    assert_eq!(image.lookup_pg_table(BASE), Some(PAGE_A));
}
