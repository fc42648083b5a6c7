//! Decisions of a session that drives a directly attached serial device.
//!
//! The session does no I/O itself: for each command it says what its runner
//! must do with the port, and it turns the bytes the runner reads into events.
use vstd::prelude::*;
use vstd::utf8::{decode_utf8, valid_utf8};
use crate::frame::{Frame, FrameParser, FrameView, frames_view, process};
use crate::protocol::{SendToGui, SendToSerial};
use crate::screen::{png_of_rgb, raster_of, screen_png};

verus! {

/// Read timeout of an open port, long enough for a slow device wake-up.
pub const READ_TIMEOUT_MS: u64 = 50000;

/// Pause after opening a port before the first request is written.
pub const SETTLE_MS: u64 = 500;

/// Bytes asked of the port by each read.
pub const READ_CHUNK: usize = 7000;

/// The request that makes the device send its screen.
pub open spec fn screen_request() -> Seq<char> {
    seq!['s', 'c', 'r', 'e', 'e', 'n', ':']
}

/// What the runner of a session has to do next.
#[derive(Debug, PartialEq, Eq)]
pub enum LinkAction {
    /// Enumerate the serial ports and hand the outcome to `ports_event`.
    ListPorts,
    /// Close any open port, open this one with the given read timeout, wait
    /// `settle_ms`, then call `LocalLink::port_opened`. A failure to open
    /// ends the session.
    OpenPort { name: String, baud_rate: u32, timeout_ms: u64, settle_ms: u64 },
    /// Write the text's UTF-8 bytes to the open port and flush it.
    Write(String),
    /// A message was dropped because no port is open.
    NoPort,
    /// The selected baud rate does not fit a port's `u32` setting: the port
    /// cannot be opened, which ends the session like a failed open.
    InvalidBaudRate(usize),
}

/// The text that `String::from_utf8_lossy` decodes from bytes.
pub uninterp spec fn lossy_utf8(bytes: Seq<u8>) -> Seq<char>;

/// Relies on `String::from_utf8_lossy`: invalid sequences become U+FFFD and
/// valid UTF-8 is decoded as it is.
#[verifier::external_body]
fn utf8_lossy(bytes: &[u8]) -> (r: String)
    ensures
        r@ == lossy_utf8(bytes@),
        valid_utf8(bytes@) ==> r@ == decode_utf8(bytes@),
{
    String::from_utf8_lossy(bytes).into_owned()
}

/// State of a session over a local serial port.
pub struct LocalLink {
    parser: FrameParser,
    connected: bool,
}

impl LocalLink {
    /// Whether a port is open.
    pub closed spec fn connected(&self) -> bool {
        self.connected
    }

    /// The state of the stream parser: synchronized, and the buffered bytes.
    pub closed spec fn stream(&self) -> (bool, Seq<u8>) {
        self.parser@
    }

    pub closed spec fn wf(&self) -> bool {
        self.parser.wf()
    }

    /// A session with no port open.
    pub fn new() -> (r: LocalLink)
        ensures
            !r.connected(),
            r.stream() == (false, Seq::<u8>::empty()),
            r.wf(),
    {
        LocalLink { parser: FrameParser::new(), connected: false }
    }

    /// Whether a port is open.
    pub fn is_connected(&self) -> (r: bool)
        ensures
            r == self.connected(),
    {
        self.connected
    }

    /// Decides what a command asks of the port. The session's own state does
    /// not change until the runner reports an opened port.
    pub fn on_command(&self, cmd: SendToSerial) -> (a: LinkAction)
        ensures
            match cmd {
                SendToSerial::AskForPorts() => a == LinkAction::ListPorts,
                SendToSerial::SelectPort(name, baud) => if baud <= u32::MAX {
                    a matches LinkAction::OpenPort {
                        name: n,
                        baud_rate: b,
                        timeout_ms: t,
                        settle_ms: w,
                    } && n@ == name@ && b == baud && t == READ_TIMEOUT_MS && w == SETTLE_MS
                } else {
                    a == LinkAction::InvalidBaudRate(baud)
                },
                SendToSerial::SendMessage(text) => if self.connected() {
                    a matches LinkAction::Write(t) && t@ == text@
                } else {
                    a == LinkAction::NoPort
                },
            },
    {
        match cmd {
            SendToSerial::AskForPorts() => LinkAction::ListPorts,
            SendToSerial::SelectPort(name, baud) => {
                if baud <= u32::MAX as usize {
                    LinkAction::OpenPort {
                        name,
                        baud_rate: baud as u32,
                        timeout_ms: READ_TIMEOUT_MS,
                        settle_ms: SETTLE_MS,
                    }
                } else {
                    LinkAction::InvalidBaudRate(baud)
                }
            },
            SendToSerial::SendMessage(text) => {
                if self.connected {
                    LinkAction::Write(text)
                } else {
                    LinkAction::NoPort
                }
            },
        }
    }

    /// Records that a port was opened: the stream starts over with a fresh
    /// parser, and the device is asked for its screen.
    pub fn port_opened(&mut self) -> (a: LinkAction)
        ensures
            final(self).connected(),
            final(self).stream() == (false, Seq::<u8>::empty()),
            final(self).wf(),
            a matches LinkAction::Write(t) && t@ == screen_request(),
    {
        self.parser = FrameParser::new();
        self.connected = true;
        let request = "screen:".to_owned();
        proof {
            reveal_strlit("screen:");
            assert(request@ =~= screen_request());
        }
        LinkAction::Write(request)
    }

    /// Feeds bytes read from the port to the stream parser and returns the
    /// frames they complete, in stream order.
    pub fn on_bytes(&mut self, bytes: &[u8]) -> (frames: Vec<Frame>)
        requires
            old(self).wf(),
        ensures
            process(old(self).stream().0, old(self).stream().1 + bytes@) == (
                frames_view(frames@),
                final(self).stream().0,
                final(self).stream().1,
            ),
            final(self).connected() == old(self).connected(),
            final(self).wf(),
    {
        self.parser.feed(bytes)
    }
}

/// The "no port selected" entry that leads every port list.
pub open spec fn no_port() -> Seq<char> {
    seq!['N', 'o', 'n', 'e']
}

/// The event for the outcome of a port enumeration: the names led by "None",
/// or the failure text as log text.
pub fn ports_event(result: Result<Vec<String>, String>) -> (ev: SendToGui)
    ensures
        match result {
            Ok(names) => ev matches SendToGui::Ports(list) && list@.len() == names@.len() + 1
                && list@[0]@ == no_port() && forall|i: int|
                0 <= i < names@.len() ==> #[trigger] list@[i + 1]@ == names@[i]@,
            Err(text) => ev matches SendToGui::LogToShow(t) && t@ == text@,
        },
{
    match result {
        Ok(names) => {
            let mut list: Vec<String> = Vec::new();
            let none = "None".to_owned();
            proof {
                reveal_strlit("None");
                assert(none@ =~= no_port());
            }
            list.push(none);
            let mut i: usize = 0;
            while i < names.len()
                invariant
                    i <= names@.len(),
                    list@.len() == i + 1,
                    list@[0]@ == no_port(),
                    forall|j: int| 0 <= j < i ==> #[trigger] list@[j + 1]@ == names@[j]@,
                decreases names.len() - i,
            {
                list.push(names[i].clone());
                i = i + 1;
            }
            SendToGui::Ports(list)
        },
        Err(text) => SendToGui::LogToShow(text),
    }
}

/// The event for one frame: log bytes become text (invalid UTF-8 replaced,
/// never fatal); a screen payload becomes a PNG file of its decoded raster.
pub fn frame_event(frame: Frame) -> (ev: SendToGui)
    ensures
        match frame@ {
            FrameView::Log(b) => ev matches SendToGui::LogToShow(t) && t@ == lossy_utf8(b),
            FrameView::Screen(p) => ev matches SendToGui::ShowPng(png) && png@ == png_of_rgb(
                200,
                200,
                raster_of(p),
            ),
        },
{
    match frame {
        Frame::Log(bytes) => SendToGui::LogToShow(utf8_lossy(bytes.as_slice())),
        Frame::Screen(payload) => SendToGui::ShowPng(screen_png(payload.as_slice())),
    }
}

} // verus!
