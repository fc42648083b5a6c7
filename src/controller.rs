//! State that a controller front-end keeps, and its hand-off of commands.
use vstd::prelude::*;
use vstd::string::StringExecFns;
use std::sync::mpsc::{Receiver, Sender};
use crate::logs::{filter_logs, kept_text, lines_of, screen_hints};
use crate::protocol::{SendToGui, SendToSerial};

verus! {

#[verifier::external_type_specification]
#[verifier::external_body]
#[verifier::reject_recursive_types(T)]
pub struct ExSender<T>(Sender<T>);

#[verifier::external_type_specification]
#[verifier::external_body]
#[verifier::reject_recursive_types(T)]
pub struct ExReceiver<T>(Receiver<T>);

/// Relies on `mpsc::Sender::send`: queues the message, and fails only when
/// the receiving side is gone.
#[verifier::external_body]
fn queue_send(tx: &Sender<SendToSerial>, message: SendToSerial) -> (sent: bool) {
    tx.send(message).is_ok()
}

/// Relies on `mpsc::Sender::clone`: another handle to the same queue.
#[verifier::external_body]
fn clone_sender(tx: &Sender<SendToSerial>) -> Sender<SendToSerial> {
    tx.clone()
}

/// Hands a command to the session's queue. Returns whether it was queued:
/// never without a queue, and otherwise as the queue reports (a command for a
/// session that is gone is dropped).
pub fn send_serial(tx_serial: Option<Sender<SendToSerial>>, message: SendToSerial) -> (sent: bool)
    ensures
        tx_serial is None ==> !sent,
{
    match tx_serial {
        Some(tx) => queue_send(&tx, message),
        None => false,
    }
}

/// The baud rate proposed before the operator types one.
pub open spec fn default_baud_rate() -> Seq<char> {
    seq!['9', '2', '1', '6', '0', '0']
}

/// The relay address proposed before the operator types one.
pub open spec fn default_remote_address() -> Seq<char> {
    seq![':', '2', '4', '3', '7', '7']
}

/// What the controller front-end knows and shows.
pub struct MyApp {
    /// Queue to the chosen session, once a backend is chosen.
    pub tx_serial: Option<Sender<SendToSerial>>,
    /// Sending side of the event queue, handed to the session when it starts.
    pub tx_gui: Sender<SendToGui>,
    /// Events from the session.
    pub rx_gui: Receiver<SendToGui>,
    /// Index of the selected entry of `ports`; 0 is "None".
    pub sel_port: usize,
    /// The last port list received.
    pub ports: Vec<String>,
    /// Baud rate as typed by the operator.
    pub baud_rate: String,
    /// The last screen received, as a PNG file.
    pub image: Vec<u8>,
    /// Log text received so far.
    pub logs: String,
    /// Whether a port was asked to be opened, locally or through a relay.
    pub connected: bool,
    /// Whether the operator chose between the local and the remote backend.
    pub decided_backend: bool,
    /// Address of the relay, as typed by the operator.
    pub remote_address: String,
}

impl MyApp {
    /// A front-end with no backend chosen, nothing received and the default
    /// baud rate and relay address.
    pub fn new(tx_gui: Sender<SendToGui>, rx_gui: Receiver<SendToGui>) -> (r: Self)
        ensures
            r.tx_gui == tx_gui,
            r.rx_gui == rx_gui,
            r.tx_serial is None,
            r.sel_port == 0,
            r.ports@.len() == 0,
            r.baud_rate@ == default_baud_rate(),
            r.image@.len() == 0,
            r.logs@.len() == 0,
            !r.connected,
            !r.decided_backend,
            r.remote_address@ == default_remote_address(),
    {
        let baud_rate = "921600".to_owned();
        let remote_address = ":24377".to_owned();
        proof {
            reveal_strlit("921600");
            reveal_strlit(":24377");
            assert(baud_rate@ =~= default_baud_rate());
            assert(remote_address@ =~= default_remote_address());
        }
        MyApp {
            tx_serial: None,
            tx_gui,
            rx_gui,
            sel_port: 0,
            ports: Vec::new(),
            baud_rate,
            image: Vec::new(),
            logs: String::new(),
            connected: false,
            decided_backend: false,
            remote_address,
        }
    }

    /// Applies an event from the session: a port list replaces the last one,
    /// log text is filtered and appended to the log, a screen replaces the
    /// last one. Each line of the log text that looks like a screen dump
    /// makes it ask the session for a fresh screen (`SendMessage("screen:")`);
    /// returns how many such requests it handed on.
    pub fn on_event(&mut self, ev: SendToGui) -> (requests: usize)
        ensures
            match ev {
                SendToGui::Ports(p) => final(self).ports@ == p@ && final(self).logs@ == old(
                    self,
                ).logs@ && final(self).image@ == old(self).image@ && requests == 0,
                SendToGui::LogToShow(t) => final(self).logs@ == old(self).logs@ + kept_text(
                    lines_of(t@),
                ) && requests == screen_hints(lines_of(t@)) && final(self).ports@ == old(
                    self,
                ).ports@ && final(self).image@ == old(self).image@,
                SendToGui::ShowPng(png) => final(self).image@ == png@ && final(self).logs@ == old(
                    self,
                ).logs@ && final(self).ports@ == old(self).ports@ && requests == 0,
            },
            final(self).sel_port == old(self).sel_port,
            final(self).connected == old(self).connected,
            final(self).decided_backend == old(self).decided_backend,
    {
        match ev {
            SendToGui::Ports(p) => {
                self.ports = p;
                0
            },
            SendToGui::LogToShow(text) => {
                let (kept, requests) = filter_logs(text.as_str());
                self.logs.append(kept.as_str());
                let mut k: usize = 0;
                while k < requests
                    invariant
                        k <= requests,
                    decreases requests - k,
                {
                    self.send(SendToSerial::SendMessage("screen:".to_owned()));
                    k = k + 1;
                }
                requests
            },
            SendToGui::ShowPng(png) => {
                self.image = png;
                0
            },
        }
    }

    /// Hands a command to the chosen session; `false` where no backend was
    /// chosen yet or the session is gone.
    pub fn send(&self, message: SendToSerial) -> (sent: bool)
        ensures
            self.tx_serial is None ==> !sent,
    {
        let tx = match &self.tx_serial {
            Some(tx) => Some(clone_sender(tx)),
            None => None,
        };
        send_serial(tx, message)
    }
}

} // verus!
