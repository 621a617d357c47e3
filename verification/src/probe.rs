//! What a probe asks its driver to do, and what the driver reports back.
//!
//! A probe is a state machine: the driver performs each action (opening a
//! TCP connection, writing, reading) and hands the outcome back as the next
//! event, until the probe finishes with its detection.
use vstd::prelude::*;

use crate::miner::{miner_view, DiscoveredMiner, MinerView, SocketAddress};

verus! {

/// The size of one read.
pub const READ_CHUNK_BYTES: usize = 1024;

/// The next thing the driver should do.
#[derive(Debug)]
pub enum ProbeAction {
    /// Open a TCP connection to the address.
    Connect(SocketAddress),
    /// Write all of this text to the connection.
    Send(String),
    /// Read at most this many bytes.
    Read(usize),
    /// The probe is over; this is its detection.
    Finish(Option<DiscoveredMiner>),
}

/// The outcome of the last action.
#[derive(Debug)]
pub enum ProbeEvent {
    Connected,
    ConnectFailed,
    Sent,
    SendFailed,
    /// The bytes a read returned; none means the peer closed the connection.
    Received(Vec<u8>),
    /// The read failed or timed out.
    ReadFailed,
}

/// An action seen as plain values.
pub enum ActionView {
    Connect(SocketAddress),
    Send(Seq<char>),
    Read(usize),
    Finish(Option<MinerView>),
}

/// An event seen as plain values.
pub enum EventView {
    Connected,
    ConnectFailed,
    Sent,
    SendFailed,
    Received(Seq<u8>),
    ReadFailed,
}

impl View for ProbeAction {
    type V = ActionView;

    open spec fn view(&self) -> ActionView {
        match self {
            ProbeAction::Connect(a) => ActionView::Connect(*a),
            ProbeAction::Send(s) => ActionView::Send(s@),
            ProbeAction::Read(n) => ActionView::Read(*n),
            ProbeAction::Finish(m) => ActionView::Finish(miner_view(*m)),
        }
    }
}

impl View for ProbeEvent {
    type V = EventView;

    open spec fn view(&self) -> EventView {
        match self {
            ProbeEvent::Connected => EventView::Connected,
            ProbeEvent::ConnectFailed => EventView::ConnectFailed,
            ProbeEvent::Sent => EventView::Sent,
            ProbeEvent::SendFailed => EventView::SendFailed,
            ProbeEvent::Received(b) => EventView::Received(b@),
            ProbeEvent::ReadFailed => EventView::ReadFailed,
        }
    }
}

} // verus!
