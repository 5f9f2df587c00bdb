//! The Coordinator: sole owner of the Registry. It admits or refuses new
//! connections against the configured capacity, removes connections whose
//! readers signalled an interrupt, and turns each received message into a
//! broadcast action addressed to every other live connection.

use vstd::prelude::*;
use crate::reader::PayloadSignal;
use crate::registry::Registry;
use crate::registry::not_name;
use crate::registry::unique_names;
use crate::registry::views_of;

verus! {

/// The broadcast wire format: `<sender> -> <text>` followed by CR LF.
pub open spec fn line_spec(sender: Seq<u8>, text: Seq<u8>) -> Seq<u8> {
    sender + seq![0x20u8, 0x2du8, 0x3eu8, 0x20u8] + text + seq![0x0du8, 0x0au8]
}

/// Whether a connection attempt by `name` is admitted: refused exactly when
/// the registry is full and `name` is not an identity it already tracks.
pub open spec fn admit_spec(reg: Seq<Seq<u8>>, cap: nat, name: Seq<u8>) -> bool {
    !(reg.len() == cap && !reg.contains(name))
}

/// The registry after a connection attempt by `name`.
pub open spec fn accept_next(reg: Seq<Seq<u8>>, cap: nat, name: Seq<u8>) -> Seq<Seq<u8>> {
    if !admit_spec(reg, cap, name) {
        reg
    } else if reg.contains(name) {
        reg
    } else {
        reg.push(name)
    }
}

/// The registry after one event from `sender`'s reader: an interrupt
/// removes the sender; a message leaves the registry as it is.
pub open spec fn payload_next(
    reg: Seq<Seq<u8>>,
    sender: Seq<u8>,
    signal: PayloadSignal,
) -> Seq<Seq<u8>> {
    if signal is InterruptSignal {
        reg.filter(not_name(sender))
    } else {
        reg
    }
}

/// The broadcast caused by one event from `sender`'s reader, if any: a
/// message is relayed, formatted per `line_spec`, to every tracked
/// connection except the sender; nothing else causes a broadcast.
pub open spec fn payload_action(
    reg: Seq<Seq<u8>>,
    sender: Seq<u8>,
    signal: PayloadSignal,
    message: Option<Seq<u8>>,
) -> Option<(Seq<u8>, Seq<Seq<u8>>)> {
    if signal is MessageSignal && message is Some {
        Some((line_spec(sender, message->0), reg.filter(not_name(sender))))
    } else {
        None
    }
}

/// The view of an optional byte vector.
pub open spec fn opt_view(m: Option<Vec<u8>>) -> Option<Seq<u8>> {
    match m {
        Some(v) => Some(v@),
        None => None,
    }
}

/// One broadcast to perform: the formatted line, and the identities of the
/// connections it must be written to.
pub struct Broadcast {
    pub line: Vec<u8>,
    pub targets: Vec<Vec<u8>>,
}

/// Append all of `src` to `dst`.
fn push_all(dst: &mut Vec<u8>, src: &Vec<u8>)
    ensures
        final(dst)@ == old(dst)@ + src@,
{
    let mut i: usize = 0;
    while i < src.len()
        invariant
            i <= src.len(),
            dst@ == old(dst)@ + src@.take(i as int),
        decreases src.len() - i,
    {
        dst.push(src[i]);
        proof {
            assert(old(dst)@ + src@.take(i + 1 as int) =~= (old(dst)@ + src@.take(i as int)).push(
                src@[i as int],
            ));
        }
        i = i + 1;
    }
    proof {
        assert(src@.take(src@.len() as int) =~= src@);
    }
}

/// Format one broadcast line: `<sender> -> <text>` with a CR LF terminator.
pub fn broadcast_line(sender: &Vec<u8>, text: &Vec<u8>) -> (line: Vec<u8>)
    ensures
        line@ == line_spec(sender@, text@),
{
    let mut line: Vec<u8> = Vec::new();
    push_all(&mut line, sender);
    line.push(0x20);
    line.push(0x2d);
    line.push(0x3e);
    line.push(0x20);
    push_all(&mut line, text);
    line.push(0x0d);
    line.push(0x0a);
    proof {
        assert(line@ =~= line_spec(sender@, text@));
    }
    line
}

/// The relay server's coordination state: the admission bound, the bound
/// handed to each connection's reader, and the registry of live connections.
pub struct Server {
    max_clients: usize,
    max_buffer: usize,
    registry: Registry,
}

impl Server {
    /// The configured maximum number of concurrently tracked connections.
    pub closed spec fn capacity(&self) -> nat {
        self.max_clients as nat
    }

    /// The per-read buffer bound handed to each Line Reader.
    pub closed spec fn buffer_bound(&self) -> nat {
        self.max_buffer as nat
    }

    /// The identities of the tracked connections, in registry order.
    pub closed spec fn connections(&self) -> Seq<Seq<u8>> {
        self.registry@
    }

    /// Identities are unique and never more of them than the capacity.
    pub open spec fn wf(&self) -> bool {
        unique_names(self.connections()) && self.connections().len() <= self.capacity()
    }

    /// A fresh server: room for one client, the default 256-byte read
    /// bound, and no tracked connections.
    pub fn new() -> (s: Server)
        ensures
            s.capacity() == 1,
            s.buffer_bound() == 256,
            s.connections() == Seq::<Seq<u8>>::empty(),
            s.wf(),
    {
        Server { max_clients: 1, max_buffer: 256, registry: Registry::new() }
    }

    /// Set the admission bound. Changing the bound discards the tracked
    /// connections (the registry is rebuilt); setting it to its current
    /// value keeps them.
    pub fn max_clients(self, max_clients: usize) -> (s: Server)
        requires
            self.wf(),
        ensures
            s.wf(),
            s.capacity() == max_clients,
            s.buffer_bound() == self.buffer_bound(),
            max_clients == self.capacity() ==> s.connections() == self.connections(),
            max_clients != self.capacity() ==> s.connections() == Seq::<Seq<u8>>::empty(),
    {
        if max_clients == self.max_clients {
            return self;
        }
        Server { max_clients, max_buffer: self.max_buffer, registry: Registry::new() }
    }

    /// Set the per-read buffer bound handed to each reader.
    pub fn max_acceptable_buffer(self, max_buffer: usize) -> (s: Server)
        requires
            self.wf(),
        ensures
            s.wf(),
            s.buffer_bound() == max_buffer,
            s.capacity() == self.capacity(),
            s.connections() == self.connections(),
    {
        Server { max_clients: self.max_clients, max_buffer, registry: self.registry }
    }

    /// How many connections are tracked.
    pub fn client_count(&self) -> (n: usize)
        ensures
            n == self.connections().len(),
    {
        self.registry.len()
    }

    /// Whether `name` is a tracked identity.
    pub fn is_connected(&self, name: &Vec<u8>) -> (r: bool)
        ensures
            r == self.connections().contains(name@),
    {
        self.registry.contains(name)
    }

    /// Decide one connection attempt. The attempt is admitted unless the
    /// registry is at capacity and `name` is not already tracked; a refused
    /// socket is simply dropped by the caller, and an admitted identity is
    /// tracked from here on (an already-tracked one stays as it is).
    pub fn on_accept(&mut self, name: Vec<u8>) -> (admitted: bool)
        requires
            old(self).wf(),
        ensures
            final(self).wf(),
            admitted == admit_spec(old(self).connections(), old(self).capacity(), name@),
            final(self).connections() == accept_next(
                old(self).connections(),
                old(self).capacity(),
                name@,
            ),
            final(self).capacity() == old(self).capacity(),
            final(self).buffer_bound() == old(self).buffer_bound(),
    {
        if self.registry.len() == self.max_clients && !self.registry.contains(&name) {
            return false;
        }
        self.registry.insert(name);
        true
    }

    /// Dispatch one event from `sender`'s reader. An interrupt removes the
    /// sender from the registry (a second interrupt for the same identity
    /// is a no-op) and causes no broadcast. A message leaves the registry
    /// unchanged and yields a broadcast of the formatted line to every
    /// other tracked connection.
    pub fn on_payload(
        &mut self,
        sender: Vec<u8>,
        signal: PayloadSignal,
        message: Option<Vec<u8>>,
    ) -> (action: Option<Broadcast>)
        requires
            old(self).wf(),
        ensures
            final(self).wf(),
            final(self).connections() == payload_next(old(self).connections(), sender@, signal),
            match payload_action(old(self).connections(), sender@, signal, opt_view(message)) {
                None => action is None,
                Some(act) => action matches Some(b) && b.line@ == act.0 && views_of(b.targets@)
                    == act.1,
            },
            final(self).capacity() == old(self).capacity(),
            final(self).buffer_bound() == old(self).buffer_bound(),
    {
        match signal {
            PayloadSignal::InterruptSignal => {
                self.registry.remove(&sender);
                None
            },
            PayloadSignal::MessageSignal => {
                match message {
                    Some(m) => {
                        let line = broadcast_line(&sender, &m);
                        let targets = self.registry.others(&sender);
                        Some(Broadcast { line, targets })
                    },
                    None => None,
                }
            },
        }
    }
}

} // verus!
