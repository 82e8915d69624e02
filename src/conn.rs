//! Errors of the RDMA control and data paths, and the identity of a remote
//! RDMA service.

use vstd::prelude::*;

verus! {

/// An error on an RDMA connection.
#[derive(Clone, Copy, Debug, PartialEq, Eq, Structural)]
pub enum IOErr {
    ConnErr(ConnErr),
    RDMAErr(RDMAErr),
    /// Any other failure, such as reading a queue pair's state.
    Other,
}

/// A control-path error.
#[derive(Clone, Copy, Debug, PartialEq, Eq, Structural)]
pub enum ConnErr {
    /// No path to the raw GID was found.
    PathNotFound,
    Timeout,
    /// The queue pair is not ready to send.
    QPNotReady,
    /// Any other connection failure.
    ConnErr,
}

/// A data-path error.
#[derive(Clone, Copy, Debug, PartialEq, Eq, Structural)]
pub enum RDMAErr {
    Timeout,
    /// Any other transport failure.
    RDMAErr,
}

/// A remote NIC's service: the GID in text form, the service id and the
/// queue-pair hint.
#[derive(Debug)]
pub struct ConnTarget {
    pub target_gid: Vec<u8>,
    pub remote_service_id: u64,
    pub qd_hint: u64,
}

/// A connection that posts requests to a device and polls their completions.
pub trait Conn {
    /// The error of a post or a poll.
    type IOResult;
    /// A request.
    type ReqPayload;
    /// A completion.
    type CompPayload;

    /// Posts `req` to the device.
    fn post(&mut self, req: &Self::ReqPayload) -> Result<(), Self::IOResult>;

    /// Polls the completion of a posted request.
    fn poll(&mut self) -> Result<Self::CompPayload, Self::IOResult>;
}

/// The operations of an RDMA connection.
pub trait RDMAConn {
    /// The connection is ready to send.
    fn ready(&self) -> Result<(), IOErr>;

    /// Reads remote memory at `remote_addr` into `local_addr`.
    fn one_sided_read(&self, local_addr: u64, remote_addr: u64) -> Result<(), IOErr>;

    /// Writes local memory at `local_addr` to `remote_addr`.
    fn one_sided_write(&self, local_addr: u64, remote_addr: u64) -> Result<(), IOErr>;

    /// Sends the message at `local_addr`.
    fn send_msg(&self, local_addr: u64) -> Result<(), IOErr>;

    /// Receives a message into `local_addr`.
    fn recv_msg(&self, local_addr: u64) -> Result<(), IOErr>;
}

} // verus!
