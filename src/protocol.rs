//! Messages exchanged between a controller and a link session.
use vstd::prelude::*;

verus! {

/// Commands from the controller to a link session.
#[derive(Clone, Debug, PartialEq, Eq)]
pub enum SendToSerial {
    /// Ask for the names of the available serial ports.
    AskForPorts(),
    /// Open (or reopen) the named port at the given baud rate.
    SelectPort(String, usize),
    /// Text written verbatim to the device.
    SendMessage(String),
}

/// Events from a link session to the controller.
#[derive(Clone, Debug, PartialEq, Eq)]
pub enum SendToGui {
    /// Port names, led by the "None" entry.
    Ports(Vec<String>),
    /// A batch of log text from the device.
    LogToShow(String),
    /// One decoded screen, as a PNG file.
    ShowPng(Vec<u8>),
}

/// Network port that the relay listens on unless told otherwise.
pub const DEFAULT_PORT: u16 = 24377;

/// Settings of the relay program.
#[derive(Clone, Copy, Debug, PartialEq, Eq)]
pub struct Args {
    /// Network port to listen on.
    pub port: u16,
}

impl Default for Args {
    fn default() -> (r: Args)
        ensures
            r.port == DEFAULT_PORT,
    {
        Args { port: DEFAULT_PORT }
    }
}

} // verus!
