//! Which socket calls are logged, and as what.

use vstd::prelude::*;

use crate::event::{opt_text, MessageEvent, MessageEventView};
use crate::text::{decimal, push_decimal};

verus! {

/// The Slurm Job and task that a process belongs to, as far as it is known.
#[derive(Debug)]
pub struct Attribution {
    pub job_id: Option<String>,
    pub step_id: Option<String>,
    pub task_id: Option<String>,
    pub node: Option<String>,
}

/// The name of the far end of a socket.
#[derive(Debug, Clone, Copy, PartialEq)]
pub struct PeerName {
    /// Whether the name is an IPv4 address and port.
    pub inet: bool,
    /// The four bytes of the address, in network order.
    pub octets: [u8; 4],
    pub port: u16,
}

/// The bits of a file's mode that hold its type.
pub const FILE_TYPE_MASK: u32 = 0o170000;

/// The type of a socket, in those bits.
pub const SOCKET_TYPE: u32 = 0o140000;

/// Whether a descriptor is a socket, from the mode of its file. One whose mode
/// cannot be had is not.
pub fn is_socket(mode: Option<u32>) -> (res: bool)
    ensures
        res == match mode {
            Some(bits) => bits / 4096 % 16 == 12,
            None => false,
        },
{
    match mode {
        Some(bits) => {
            assert((bits & 0o170000 == 0o140000) == (bits / 4096 % 16 == 12)) by (bit_vector);
            bits & FILE_TYPE_MASK == SOCKET_TYPE
        },
        None => false,
    }
}

/// Whether a finished read or write is logged: one that moved at least one
/// byte, on a socket.
pub fn is_logged(bytes: isize, socket: bool) -> (res: bool)
    ensures
        res == (bytes > 0 && socket),
{
    bytes > 0 && socket
}

/// An IPv4 address and port as they are written.
pub open spec fn address_text(octets: Seq<u8>, port: u16) -> Seq<char> {
    decimal(octets[0] as nat) + "."@ + decimal(octets[1] as nat) + "."@ + decimal(
        octets[2] as nat,
    ) + "."@ + decimal(octets[3] as nat) + ":"@ + decimal(port as nat)
}

/// The text of a socket's peer: address and port of an IPv4 peer, `None` for
/// one of another family or one whose name is not known.
pub open spec fn peer_text(peer: Option<PeerName>) -> Option<Seq<char>> {
    match peer {
        Some(name) => if name.inet {
            Some(address_text(name.octets@, name.port))
        } else {
            None
        },
        None => None,
    }
}

/// The text of a socket's peer.
pub fn peer_string(peer: Option<PeerName>) -> (res: Option<String>)
    ensures
        opt_text(res) == peer_text(peer),
        match peer {
            Some(name) => if name.inet {
                res matches Some(text) && text@ == decimal(name.octets@[0] as nat) + "."@ + decimal(
                    name.octets@[1] as nat,
                ) + "."@ + decimal(name.octets@[2] as nat) + "."@ + decimal(
                    name.octets@[3] as nat,
                ) + ":"@ + decimal(name.port as nat)
            } else {
                res is None
            },
            None => res is None,
        },
{
    match peer {
        Some(name) => {
            if !name.inet {
                return None;
            }
            let mut text = String::new();
            push_decimal(&mut text, name.octets[0] as u128);
            assert(text@ =~= decimal(name.octets@[0] as nat));
            text.append(".");
            push_decimal(&mut text, name.octets[1] as u128);
            text.append(".");
            push_decimal(&mut text, name.octets[2] as u128);
            text.append(".");
            push_decimal(&mut text, name.octets[3] as u128);
            text.append(":");
            push_decimal(&mut text, name.port as u128);
            Some(text)
        },
        None => None,
    }
}

/// The record of a socket call.
pub open spec fn call_record(
    pid: u32,
    fd: i32,
    direction: Seq<char>,
    peer: Option<PeerName>,
    bytes: i64,
    timestamp_ms: u128,
    by: Attribution,
) -> MessageEventView {
    MessageEventView {
        pid,
        fd,
        direction,
        peer: peer_text(peer),
        bytes,
        timestamp_ms,
        job_id: opt_text(by.job_id),
        step_id: opt_text(by.step_id),
        task_id: opt_text(by.task_id),
        node: opt_text(by.node),
    }
}

/// A record has the facts of the call that it is made from, and the task that
/// it is attributed to. Its peer is not among them.
pub open spec fn records_call(
    pid: u32,
    fd: i32,
    direction: Seq<char>,
    bytes: int,
    timestamp_ms: u128,
    by: Attribution,
    event: MessageEvent,
) -> bool {
    &&& event.pid == pid
    &&& event.fd == fd
    &&& event.direction@ == direction
    &&& event.bytes == bytes
    &&& event.timestamp_ms == timestamp_ms
    &&& event.job_id == by.job_id
    &&& event.step_id == by.step_id
    &&& event.task_id == by.task_id
    &&& event.node == by.node
}

/// The record of a call that moved bytes over a socket.
pub fn call_event(
    pid: u32,
    fd: i32,
    direction: &str,
    peer: Option<PeerName>,
    bytes: isize,
    timestamp_ms: u128,
    by: Attribution,
) -> (res: MessageEvent)
    ensures
        res@ == call_record(pid, fd, direction@, peer, bytes as i64, timestamp_ms, by),
        records_call(pid, fd, direction@, bytes as int, timestamp_ms, by, res),
        opt_text(res.peer) == peer_text(peer),
{
    MessageEvent {
        pid,
        fd,
        direction: direction.to_owned(),
        peer: peer_string(peer),
        bytes: bytes as i64,
        timestamp_ms,
        job_id: by.job_id,
        step_id: by.step_id,
        task_id: by.task_id,
        node: by.node,
    }
}

/// The record of a successful connect, which moves no bytes; a failed one,
/// whose return value is not zero, has none.
pub fn connect_event(
    returned: i32,
    pid: u32,
    fd: i32,
    peer: Option<PeerName>,
    timestamp_ms: u128,
    by: Attribution,
) -> (res: Option<MessageEvent>)
    ensures
        match res {
            Some(event) => returned == 0 && event@ == call_record(
                pid,
                fd,
                "connect"@,
                peer,
                0,
                timestamp_ms,
                by,
            ),
            None => returned != 0,
        },
        returned == 0 ==> (res matches Some(event) && records_call(
            pid,
            fd,
            "connect"@,
            0,
            timestamp_ms,
            by,
            event,
        ) && opt_text(event.peer) == peer_text(peer)),
{
    if returned != 0 {
        return None;
    }
    Some(call_event(pid, fd, "connect", peer, 0, timestamp_ms, by))
}

} // verus!
