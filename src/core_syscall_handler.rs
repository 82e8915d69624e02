//! The per-open-file state of a caller and the decisions of its system calls:
//! prepare (parent role), resume locally or from a remote machine (child
//! role), connect, page faults and close.

use vstd::prelude::*;
use crate::child::{entries_map, fault_decided, ChildDescriptor, FaultStep};
use crate::conn::{ConnErr, ConnTarget, RDMAErr};
use crate::fast_descriptors::{fast_from_bytes, fast_len, flatten, FastDescriptor};
use crate::rdma::{check_gid_text, gid_text_valid, AccessInfo};
use crate::rpc::{encode_query, reply_from_bytes, DescriptorLookupReply};
use crate::codec::enc_u64;
use crate::shadow_process_service::{PrepareMode, ShadowProcessService};

verus! {

/// The commands of the control device.
#[derive(Clone, Copy, Debug, PartialEq, Eq, Structural)]
pub enum LibMITOSISCmd {
    Nil,
    Prepare,
    ResumeLocal,
    ResumeRemote,
    Connect,
}

impl LibMITOSISCmd {
    /// The command with this number; `None` for an unknown one.
    pub fn from_raw(cmd: u32) -> (r: Option<LibMITOSISCmd>)
        ensures
            r == (if cmd == 0 {
                Some(LibMITOSISCmd::Nil)
            } else if cmd == 1 {
                Some(LibMITOSISCmd::Prepare)
            } else if cmd == 2 {
                Some(LibMITOSISCmd::ResumeLocal)
            } else if cmd == 3 {
                Some(LibMITOSISCmd::ResumeRemote)
            } else if cmd == 4 {
                Some(LibMITOSISCmd::Connect)
            } else {
                None::<LibMITOSISCmd>
            }),
    {
        if cmd == 0 {
            Some(LibMITOSISCmd::Nil)
        } else if cmd == 1 {
            Some(LibMITOSISCmd::Prepare)
        } else if cmd == 2 {
            Some(LibMITOSISCmd::ResumeLocal)
        } else if cmd == 3 {
            Some(LibMITOSISCmd::ResumeRemote)
        } else if cmd == 4 {
            Some(LibMITOSISCmd::Connect)
        } else {
            None
        }
    }
}

/// What a resumed caller holds: the key it resumed from, the adopted image
/// and the access information of the parent's endpoint.
#[derive(Debug)]
pub struct ResumeDataStruct {
    pub handler_id: usize,
    pub descriptor: ChildDescriptor,
    pub access_info: AccessInfo,
}

/// At most one prepared key and at most one resume, each set once.
#[derive(Debug)]
pub struct CallerData {
    pub prepared_key: Option<usize>,
    pub resume_related: Option<ResumeDataStruct>,
}

/// Where a remote resume stands between its steps.
#[derive(Clone, Copy, Debug, PartialEq, Eq, Structural)]
pub enum ResumeState {
    Idle,
    /// The query for `handler_id` is sent; its reply is awaited.
    AwaitReply { handler_id: usize },
    /// The descriptor of `handler_id` is being read.
    AwaitFetch { handler_id: usize },
}

/// What happened outside since the last step.
#[derive(Debug)]
pub enum ResumeEvent {
    /// The caller asks to resume from `handler_id` on the peer.
    Start { handler_id: usize },
    /// The query's reply, or `None` where the wait timed out or failed.
    Reply(Option<Vec<u8>>),
    /// The descriptor's bytes, or `None` where the read failed.
    Fetched(Option<Vec<u8>>),
}

/// What to do next.
#[derive(Debug)]
pub enum ResumeAction {
    /// Send a `Query` with this payload and wait for its reply.
    SendQuery { payload: Vec<u8> },
    /// Read the descriptor that the reply points at.
    Fetch(DescriptorLookupReply),
    /// The caller now holds the resumed image: apply it to the address space
    /// and return 0.
    Applied,
    /// The resume failed: return -1.
    Failed,
}

/// How a page fault ends.
#[derive(Clone, Copy, Debug, PartialEq, Eq, Structural)]
pub enum FaultOutcome {
    /// Install this local page.
    Installed(u64),
    /// Deliver a segmentation signal.
    Segv,
}

/// The state of one open control file.
#[derive(Debug)]
pub struct MitosisSysCallHandler {
    caller_status: CallerData,
}

impl MitosisSysCallHandler {
    pub closed spec fn prepared(&self) -> Option<usize> {
        self.caller_status.prepared_key
    }

    pub closed spec fn resumed(&self) -> bool {
        self.caller_status.resume_related is Some
    }

    /// The resumed image, where the caller has resumed.
    pub closed spec fn image(&self) -> ChildDescriptor {
        self.caller_status.resume_related->Some_0.descriptor
    }

    pub closed spec fn resumed_from(&self) -> usize {
        self.caller_status.resume_related->Some_0.handler_id
    }

    /// The resumed image is well-formed.
    pub closed spec fn wf(&self) -> bool {
        self.resumed() ==> self.image().wf()
    }

    /// A fresh caller: nothing prepared, nothing resumed.
    pub fn open() -> (r: MitosisSysCallHandler)
        ensures
            r.wf(),
            r.prepared() is None,
            !r.resumed(),
    {
        MitosisSysCallHandler { caller_status: CallerData { prepared_key: None, resume_related: None } }
    }

    pub fn prepared_key(&self) -> (r: Option<usize>)
        ensures
            r == self.prepared(),
    {
        self.caller_status.prepared_key
    }

    pub fn has_resumed(&self) -> (r: bool)
        ensures
            r == self.resumed(),
    {
        self.caller_status.resume_related.is_some()
    }

    /// The resumed image, where the caller has resumed.
    pub fn resumed_descriptor(&self) -> (r: Option<&ChildDescriptor>)
        ensures
            match r {
                Some(c) => self.resumed() && *c == self.image(),
                None => !self.resumed(),
            },
    {
        match &self.caller_status.resume_related {
            Some(d) => Some(&d.descriptor),
            None => None,
        }
    }

    /// Publishes the caller's captured `descriptor` under `key`, copy-on-write
    /// where `cow` holds. Returns 0, or -1 with nothing changed where the
    /// caller already prepared or `key` is taken.
    pub fn syscall_prepare(
        &mut self,
        service: &mut ShadowProcessService,
        key: usize,
        descriptor: FastDescriptor,
        target: u64,
        cow: bool,
    ) -> (r: i64)
        requires
            old(service).wf(),
            descriptor@.valid(),
            fast_len(descriptor@) <= usize::MAX,
        ensures
            final(service).wf(),
            final(self).resumed() == old(self).resumed(),
            final(self).wf() == old(self).wf(),
            old(self).resumed() ==> final(self).image() == old(self).image()
                && final(self).resumed_from() == old(self).resumed_from(),
            r == 0 || r == -1,
            r == 0 <==> old(self).prepared() is None && !old(service)@.contains_key(key),
            r == -1 ==> final(service)@ == old(service)@ && *final(self) == *old(self),
            r == 0 ==> {
                &&& final(self).prepared() == Some(key)
                &&& final(service)@.dom() == old(service)@.dom().insert(key)
                &&& final(service)@[key].process.descriptor@ == descriptor@
                &&& final(service)@[key].process.mode == (if cow { PrepareMode::Cow } else { PrepareMode::Copy })
                &&& forall|k: usize| k != key && #[trigger] old(service)@.contains_key(k) ==> final(service)@[k] == old(service)@[k]
            },
    {
        if self.caller_status.prepared_key.is_some() {
            return -1;
        }
        let res = if cow {
            service.add_myself_cow(key, descriptor, target)
        } else {
            service.add_myself_copy(key, descriptor, target)
        };
        if res.is_some() {
            self.caller_status.prepared_key = Some(key);
            return 0;
        }
        -1
    }

    /// Takes `child`, resumed from `handler_id`, as the caller's image.
    fn adopt(&mut self, handler_id: usize, child: ChildDescriptor)
        requires
            !old(self).resumed(),
            child.wf(),
            child.machine_info@.valid(),
        ensures
            final(self).prepared() == old(self).prepared(),
            final(self).wf(),
            final(self).resumed(),
            final(self).resumed_from() == handler_id,
            final(self).image() == child,
    {
        let access_info = AccessInfo::new(&child.machine_info).unwrap();
        self.caller_status.resume_related = Some(ResumeDataStruct { handler_id, descriptor: child, access_info });
    }

    /// Resumes from the descriptor published under `handler_id` in this
    /// machine's registry. Returns 0, or -1 with nothing changed where the
    /// caller already resumed or the key is unknown. On 0 the caller applies
    /// the image to its address space.
    pub fn syscall_local_resume(&mut self, service: &ShadowProcessService, handler_id: usize) -> (r: i64)
        requires
            service.wf(),
            old(self).wf(),
        ensures
            final(self).wf(),
            final(self).prepared() == old(self).prepared(),
            r == 0 || r == -1,
            r == 0 <==> !old(self).resumed() && service@.contains_key(handler_id),
            r == -1 ==> *final(self) == *old(self),
            r == 0 ==> ({
                let d = service@[handler_id].process.descriptor@;
                &&& final(self).resumed()
                &&& final(self).resumed_from() == handler_id
                &&& final(self).image().regs@ == d.regs
                &&& final(self).image().vma@ == d.vma
                &&& final(self).image().machine_info@ == d.machine_info
                &&& final(self).image().page_table@ == entries_map(flatten(d).page_table)
                &&& final(self).image().prefetcher.pending@.len() == 0
            }),
    {
        if self.caller_status.resume_related.is_some() {
            return -1;
        }
        match service.query_descriptor(handler_id) {
            Some(d) => {
                let child = ChildDescriptor::from_fast(d);
                self.adopt(handler_id, child);
                0
            },
            None => -1,
        }
    }

    /// One step of a resume from a remote machine: from where it stands and
    /// what happened, decides the next state and action. The fetched bytes
    /// hold a descriptor in the compact per-area format. Only a step that
    /// answers `Applied` changes the caller, which then holds the image.
    pub fn syscall_local_resume_w_rpc(&mut self, state: ResumeState, event: ResumeEvent) -> (r: (ResumeState, ResumeAction))
        requires
            old(self).wf(),
        ensures
            final(self).wf(),
            !(r.1 is Applied) ==> *final(self) == *old(self),
            r.1 is Applied ==> final(self).prepared() == old(self).prepared(),
            match (state, event) {
                (ResumeState::Idle, ResumeEvent::Start { handler_id }) => if old(self).resumed() {
                    r.0 == ResumeState::Idle && r.1 is Failed
                } else {
                    r.0 == (ResumeState::AwaitReply { handler_id }) && (match r.1 {
                        ResumeAction::SendQuery { payload } => payload@ == enc_u64(handler_id as u64),
                        _ => false,
                    })
                },
                (ResumeState::AwaitReply { handler_id }, ResumeEvent::Reply(reply)) => match reply {
                    Some(b) => match reply_from_bytes(b@) {
                        Some(l) => r.0 == (ResumeState::AwaitFetch { handler_id }) && (match r.1 {
                            ResumeAction::Fetch(f) => f == l,
                            _ => false,
                        }),
                        None => r.0 == ResumeState::Idle && r.1 is Failed,
                    },
                    None => r.0 == ResumeState::Idle && r.1 is Failed,
                },
                (ResumeState::AwaitFetch { handler_id }, ResumeEvent::Fetched(bytes)) => {
                    &&& r.0 == ResumeState::Idle
                    &&& match bytes {
                        Some(b) => match fast_from_bytes(b@) {
                            Some(d) => if old(self).resumed() {
                                r.1 is Failed
                            } else {
                                &&& r.1 is Applied
                                &&& final(self).resumed()
                                &&& final(self).resumed_from() == handler_id
                                &&& final(self).image().regs@ == d.regs
                                &&& final(self).image().vma@ == d.vma
                                &&& final(self).image().machine_info@ == d.machine_info
                                &&& final(self).image().page_table@ == entries_map(flatten(d).page_table)
                                &&& final(self).image().prefetcher.pending@.len() == 0
                            },
                            None => r.1 is Failed,
                        },
                        None => r.1 is Failed,
                    }
                },
                _ => r.0 == ResumeState::Idle && r.1 is Failed,
            },
    {
        match (state, event) {
            (ResumeState::Idle, ResumeEvent::Start { handler_id }) => {
                if self.caller_status.resume_related.is_some() {
                    return (ResumeState::Idle, ResumeAction::Failed);
                }
                (ResumeState::AwaitReply { handler_id }, ResumeAction::SendQuery { payload: encode_query(handler_id as u64) })
            },
            (ResumeState::AwaitReply { handler_id }, ResumeEvent::Reply(reply)) => {
                match reply {
                    Some(b) => match DescriptorLookupReply::deserialize(b.as_slice()) {
                        Some(l) => (ResumeState::AwaitFetch { handler_id }, ResumeAction::Fetch(l)),
                        None => (ResumeState::Idle, ResumeAction::Failed),
                    },
                    None => (ResumeState::Idle, ResumeAction::Failed),
                }
            },
            (ResumeState::AwaitFetch { handler_id }, ResumeEvent::Fetched(bytes)) => {
                match bytes {
                    Some(b) => match ChildDescriptor::deserialize(b.as_slice()) {
                        Some(child) => {
                            if self.caller_status.resume_related.is_some() {
                                return (ResumeState::Idle, ResumeAction::Failed);
                            }
                            self.adopt(handler_id, child);
                            (ResumeState::Idle, ResumeAction::Applied)
                        },
                        None => (ResumeState::Idle, ResumeAction::Failed),
                    },
                    None => (ResumeState::Idle, ResumeAction::Failed),
                }
            },
            _ => (ResumeState::Idle, ResumeAction::Failed),
        }
    }

    /// The service to probe when connecting to NIC `nic_idx` of the machine
    /// whose GID text is `gid`; an error where `gid` is no GID text.
    pub fn syscall_connect_session(&self, gid: &[u8], nic_idx: u64) -> (r: Result<ConnTarget, ConnErr>)
        ensures
            match r {
                Ok(t) => gid_text_valid(gid@) && t.target_gid@ == gid@ && t.remote_service_id == nic_idx
                    && t.qd_hint == nic_idx,
                Err(e) => !gid_text_valid(gid@) && e == ConnErr::PathNotFound,
            },
    {
        if !check_gid_text(gid) {
            return Err(ConnErr::PathNotFound);
        }
        let mut target_gid: Vec<u8> = Vec::new();
        let mut i: usize = 0;
        while i < gid.len()
            invariant
                i <= gid@.len(),
                target_gid@ =~= gid@.subrange(0, i as int),
            decreases gid@.len() - i,
        {
            target_gid.push(gid[i]);
            i = i + 1;
        }
        assert(target_gid@ =~= gid@);
        Ok(ConnTarget { target_gid, remote_service_id: nic_idx, qd_hint: nic_idx })
    }

    /// Decides what a page fault at `fault_addr` does; a caller that has not
    /// resumed has nothing mapped.
    pub fn handle_page_fault(&self, fault_addr: u64) -> (r: FaultStep)
        requires
            self.wf(),
        ensures
            !self.resumed() ==> r is Unmapped,
            self.resumed() ==> fault_decided(self.image().page_table@, fault_addr, r),
    {
        match &self.caller_status.resume_related {
            Some(d) => d.descriptor.read_remote_page(fault_addr),
            None => FaultStep::Unmapped,
        }
    }

    /// The resumed image, for the fault path to update its prefetch state.
    pub fn resumed_descriptor_mut(&mut self) -> (r: Option<&mut ChildDescriptor>)
        ensures
            match r {
                Some(c) => old(self).resumed() && *c == old(self).image() && final(self).resumed()
                    && final(self).image() == *final(c) && final(self).prepared() == old(self).prepared()
                    && final(self).resumed_from() == old(self).resumed_from(),
                None => !old(self).resumed() && *final(self) == *old(self),
            },
    {
        match &mut self.caller_status.resume_related {
            Some(d) => Some(&mut d.descriptor),
            None => None,
        }
    }

    /// How a fault whose page was read into `local_page` ends: installed on a
    /// completed read, a segmentation signal on a timeout or transport error.
    pub fn complete_page_fault(read: Result<(), RDMAErr>, local_page: u64) -> (r: FaultOutcome)
        ensures
            r == (match read {
                Ok(_) => FaultOutcome::Installed(local_page),
                Err(_) => FaultOutcome::Segv,
            }),
    {
        match read {
            Ok(_) => FaultOutcome::Installed(local_page),
            Err(_) => FaultOutcome::Segv,
        }
    }

    /// Closing the file: a prepared key is unregistered.
    pub fn close(&mut self, service: &mut ShadowProcessService)
        requires
            old(service).wf(),
        ensures
            final(service).wf(),
            match old(self).prepared() {
                Some(k) => final(service)@ == old(service)@.remove(k),
                None => final(service)@ == old(service)@,
            },
    {
        match self.caller_status.prepared_key {
            Some(k) => service.unregister(k),
            None => {},
        }
    }
}

} // verus!
