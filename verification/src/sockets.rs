//! Listening TCP sockets: one per port, and those that are reported.

use crate::text::{concat3, decimal, decimal_text, texts};
use crate::walk::push_some;
use std::collections::BTreeSet;
use vstd::prelude::*;
use vstd::string::*;

verus! {

/// The state of a TCP socket.
#[derive(Debug, Clone, Copy, PartialEq, Eq, Structural)]
pub enum TcpState {
    Closed,
    Listen,
    SynSent,
    SynReceived,
    Established,
    FinWait1,
    FinWait2,
    CloseWait,
    Closing,
    LastAck,
    TimeWait,
    DeleteTcb,
    Unknown,
}

/// A TCP socket of the machine.
#[derive(Debug, Clone)]
pub struct TcpSocket {
    pub state: TcpState,
    pub addr: String,
    pub port: u16,
    pub pids: Vec<u32>,
}

/// A socket in LISTEN state.
#[derive(Debug, Clone)]
pub struct ListeningSocket {
    pub addr: String,
    pub port: u16,
    pub pid: Option<u32>,
}

/// What is known of a listening socket.
pub struct Listener {
    pub addr: Seq<char>,
    pub port: u16,
    pub pid: Option<u32>,
}

impl View for ListeningSocket {
    type V = Listener;

    open spec fn view(&self) -> Listener {
        Listener { addr: self.addr@, port: self.port, pid: self.pid }
    }
}

pub open spec fn listeners_of(list: Seq<ListeningSocket>) -> Seq<Listener> {
    list.map_values(|s: ListeningSocket| s@)
}

/// A socket as a listener, with the first of its processes.
pub open spec fn as_listener(s: TcpSocket) -> Listener {
    Listener {
        addr: s.addr@,
        port: s.port,
        pid: if s.pids@.len() > 0 {
            Some(s.pids@[0])
        } else {
            None
        },
    }
}

/// Whether a port has a listener.
pub open spec fn has_port(s: Seq<Listener>, port: u16) -> bool {
    exists|i: int| 0 <= i < s.len() && (#[trigger] s[i]).port == port
}

/// A listener put among listeners in the order of their ports.
pub open spec fn by_port(s: Seq<Listener>, l: Listener) -> Seq<Listener>
    decreases s.len(),
{
    if s.len() == 0 || s.last().port < l.port {
        s.push(l)
    } else {
        by_port(s.drop_last(), l).push(s.last())
    }
}

/// The listeners among sockets, the first one of each port, in the order of their
/// ports.
pub open spec fn listeners(sockets: Seq<TcpSocket>) -> Seq<Listener>
    decreases sockets.len(),
{
    if sockets.len() == 0 {
        Seq::empty()
    } else {
        let before = listeners(sockets.drop_last());
        let s = sockets.last();
        if s.state == TcpState::Listen && !has_port(before, s.port) {
            by_port(before, as_listener(s))
        } else {
            before
        }
    }
}

/// The TCP sockets in LISTEN state (one entry per local port), by port.
pub fn collect_listening_tcp(sockets: &Vec<TcpSocket>) -> (r: Vec<ListeningSocket>)
    ensures
        listeners_of(r@) == listeners(sockets@),
{
    let mut out: Vec<ListeningSocket> = Vec::new();
    let mut i: usize = 0;
    assert(sockets@.take(0) =~= Seq::<TcpSocket>::empty());
    assert(listeners_of(out@) =~= Seq::<Listener>::empty());
    while i < sockets.len()
        invariant
            i <= sockets@.len(),
            listeners_of(out@) == listeners(sockets@.take(i as int)),
        decreases sockets@.len() - i,
    {
        let socket = &sockets[i];
        let ghost s = listeners_of(out@);
        let ghost l = as_listener(*socket);
        proof {
            assert(sockets@.take(i + 1).drop_last() =~= sockets@.take(i as int));
            assert(sockets@.take(i + 1).last() == sockets@[i as int]);
        }
        if socket.state == TcpState::Listen && !port_taken(&out, socket.port) {
            let pid: Option<u32> = if socket.pids.len() > 0 {
                Some(socket.pids[0])
            } else {
                None
            };
            let mut at: usize = out.len();
            assert(s.take(at as int) =~= s);
            assert(by_port(s, l) =~= by_port(s.take(at as int), l) + s.skip(at as int));
            while at > 0 && out[at - 1].port >= socket.port
                invariant
                    at <= out@.len() == s.len(),
                    s == listeners_of(out@),
                    l.port == socket.port,
                    by_port(s, l) == by_port(s.take(at as int), l) + s.skip(at as int),
                decreases at,
            {
                proof {
                    assert(s[at - 1] == out@[at - 1]@);
                    assert(s.take(at as int).drop_last() =~= s.take(at - 1));
                    assert(s.take(at as int).last() == s[at - 1]);
                    assert(by_port(s.take(at as int), l) + s.skip(at as int) =~= by_port(
                        s.take(at - 1),
                        l,
                    ) + s.skip(at - 1));
                }
                at = at - 1;
            }
            proof {
                if at > 0 {
                    assert(s.take(at as int).last() == s[at - 1]);
                    assert(s[at - 1] == out@[at - 1]@);
                }
                assert(by_port(s.take(at as int), l) =~= s.take(at as int).push(l));
            }
            out.insert(
                at,
                ListeningSocket { addr: socket.addr.clone(), port: socket.port, pid },
            );
            assert(listeners_of(out@) =~= s.take(at as int).push(l) + s.skip(at as int));
        }
        i = i + 1;
    }
    assert(sockets@.take(sockets@.len() as int) =~= sockets@);
    out
}

fn port_taken(list: &Vec<ListeningSocket>, port: u16) -> (r: bool)
    ensures
        r == has_port(listeners_of(list@), port),
{
    let mut i: usize = 0;
    while i < list.len()
        invariant
            i <= list@.len(),
            forall|k: int| 0 <= k < i ==> (#[trigger] listeners_of(list@)[k]).port != port,
        decreases list@.len() - i,
    {
        assert(listeners_of(list@)[i as int] == list@[i as int]@);
        if list[i].port == port {
            return true;
        }
        i = i + 1;
    }
    false
}

// ---------------------------------------------------------------------------
// Reports
// ---------------------------------------------------------------------------

pub open spec fn listener_text(l: Listener) -> Seq<char> {
    "listening on "@ + l.addr + ":"@ + decimal(l.port as nat) + (match l.pid {
        Some(p) => " (pid "@ + decimal(p as nat) + ")"@,
        None => Seq::empty(),
    })
}

/// The details of the reports on listeners whose port is not allowed.
pub open spec fn unlisted_ports(s: Seq<Listener>, allowed: Set<u16>) -> Seq<Seq<char>>
    decreases s.len(),
{
    if s.len() == 0 {
        Seq::empty()
    } else {
        push_some(
            unlisted_ports(s.drop_last(), allowed),
            if allowed.contains(s.last().port) {
                None
            } else {
                Some(listener_text(s.last()))
            },
        )
    }
}

fn socket_text(s: &ListeningSocket) -> (r: String)
    ensures
        r@ == listener_text(s@),
{
    let mut out = concat3("listening on ", s.addr.as_str(), ":");
    out.append(decimal_text(s.port as u64).as_str());
    match s.pid {
        Some(p) => {
            let pid = concat3(" (pid ", decimal_text(p as u64).as_str(), ")");
            out.append(pid.as_str());
        },
        None => {},
    }
    assert(s.pid is None ==> out@ =~= listener_text(s@));
    out
}

/// The details of the reports on listening sockets outside the allowlist.
pub fn unlisted_sockets(sockets: &Vec<ListeningSocket>, allowed: &BTreeSet<u16>) -> (r: Vec<String>)
    ensures
        texts(r@) == unlisted_ports(listeners_of(sockets@), allowed@),
{
    broadcast use vstd::std_specs::btree::group_btree_axioms;

    let ghost all = listeners_of(sockets@);
    let mut out: Vec<String> = Vec::new();
    let mut i: usize = 0;
    assert(all.take(0) =~= Seq::<Listener>::empty());
    assert(texts(out@) =~= Seq::<Seq<char>>::empty());
    while i < sockets.len()
        invariant
            i <= sockets@.len(),
            all == listeners_of(sockets@),
            texts(out@) == unlisted_ports(all.take(i as int), allowed@),
        decreases sockets@.len() - i,
    {
        let ghost told = out@;
        proof {
            assert(all.take(i + 1).drop_last() =~= all.take(i as int));
            assert(all.take(i + 1).last() == sockets@[i as int]@);
        }
        if !allowed.contains(&sockets[i].port) {
            let line = socket_text(&sockets[i]);
            out.push(line);
            assert(texts(out@) =~= texts(told).push(line@));
        }
        i = i + 1;
    }
    assert(all.take(sockets@.len() as int) =~= all);
    out
}

// ---------------------------------------------------------------------------
// Laws
// ---------------------------------------------------------------------------

/// Whether ports stand in strictly ascending order, so that none occurs twice.
pub open spec fn ports_ascend(s: Seq<Listener>) -> bool {
    forall|i: int, j: int| 0 <= i < j < s.len() ==> (#[trigger] s[i]).port < (#[trigger] s[j]).port
}

proof fn by_port_keeps_order(s: Seq<Listener>, l: Listener)
    requires
        ports_ascend(s),
        !has_port(s, l.port),
    ensures
        ports_ascend(by_port(s, l)),
        forall|x: Listener| #[trigger] by_port(s, l).contains(x) == (s.contains(x) || x == l),
    decreases s.len(),
{
    let t = by_port(s, l);
    if s.len() == 0 || s.last().port < l.port {
        assert forall|i: int, j: int| 0 <= i < j < t.len() implies (#[trigger] t[i]).port < (
        #[trigger] t[j]).port by {
            if j == s.len() && i < s.len() - 1 {
                assert(s[i].port < s[s.len() - 1].port);
            } else if j < s.len() {
                assert(s[i].port < s[j].port);
            }
        }
        assert forall|x: Listener| #[trigger] t.contains(x) == (s.contains(x) || x == l) by {
            if s.contains(x) {
                assert(t[s.index_of(x)] == x);
            }
            if x == l {
                assert(t[s.len() as int] == x);
            }
            if t.contains(x) {
                let k = t.index_of(x);
                if k < s.len() {
                    assert(s[k] == x);
                }
            }
        }
    } else {
        let rest = s.drop_last();
        let last = s.last();
        assert(last.port != l.port) by {
            assert(s[s.len() - 1].port == last.port);
        }
        assert(!has_port(rest, l.port)) by {
            if has_port(rest, l.port) {
                let k = choose|k: int| 0 <= k < rest.len() && (#[trigger] rest[k]).port == l.port;
                assert(s[k].port == l.port);
            }
        }
        assert forall|i: int, j: int| 0 <= i < j < rest.len() implies (#[trigger] rest[i]).port < (
        #[trigger] rest[j]).port by {
            assert(s[i].port < s[j].port);
        }
        by_port_keeps_order(rest, l);
        let u = by_port(rest, l);
        assert forall|i: int, j: int| 0 <= i < j < t.len() implies (#[trigger] t[i]).port < (
        #[trigger] t[j]).port by {
            if j < u.len() {
                assert(u[i].port < u[j].port);
            } else {
                assert(u.contains(u[i]));
                if u[i] != l {
                    let k = rest.index_of(u[i]);
                    assert(s[k].port < s[s.len() - 1].port);
                }
            }
        }
        assert forall|x: Listener| #[trigger] t.contains(x) == (s.contains(x) || x == l) by {
            assert(u.contains(x) == (rest.contains(x) || x == l));
            if u.contains(x) {
                assert(t[u.index_of(x)] == x);
            }
            if x == last {
                assert(t[u.len() as int] == x);
                assert(s[s.len() - 1] == x);
            }
            if rest.contains(x) {
                assert(s[rest.index_of(x)] == x);
            }
            if s.contains(x) {
                let k = s.index_of(x);
                if k < rest.len() {
                    assert(rest[k] == x);
                }
            }
            if t.contains(x) {
                let k = t.index_of(x);
                if k < u.len() {
                    assert(u[k] == x);
                }
            }
        }
    }
}

/// Listeners come one per port, in the order of their ports; a port has one exactly
/// when a socket listens there.
pub proof fn one_listener_per_port(sockets: Seq<TcpSocket>, port: u16)
    ensures
        ports_ascend(listeners(sockets)),
        has_port(listeners(sockets), port) == (exists|i: int|
            0 <= i < sockets.len() && (#[trigger] sockets[i]).state == TcpState::Listen
                && sockets[i].port == port),
    decreases sockets.len(),
{
    if sockets.len() > 0 {
        let rest = sockets.drop_last();
        let s = sockets.last();
        one_listener_per_port(rest, port);
        let before = listeners(rest);
        let all = listeners(sockets);
        let l = as_listener(s);
        if s.state == TcpState::Listen && !has_port(before, s.port) {
            by_port_keeps_order(before, l);
            if has_port(before, port) {
                let k = choose|k: int| 0 <= k < before.len() && (#[trigger] before[k]).port == port;
                assert(before.contains(before[k]));
                assert(all.contains(before[k]));
                assert(all[all.index_of(before[k])].port == port);
            }
            if s.port == port {
                assert(all.contains(l));
                assert(all[all.index_of(l)].port == port);
            }
            if has_port(all, port) {
                let k = choose|k: int| 0 <= k < all.len() && (#[trigger] all[k]).port == port;
                assert(all.contains(all[k]));
                if all[k] != l {
                    assert(before.contains(all[k]));
                    assert(before[before.index_of(all[k])].port == port);
                }
            }
        } else {
            one_listener_per_port(rest, s.port);
        }
        if exists|i: int|
            0 <= i < rest.len() && (#[trigger] rest[i]).state == TcpState::Listen && rest[i].port
                == port {
            let i = choose|i: int|
                0 <= i < rest.len() && (#[trigger] rest[i]).state == TcpState::Listen
                    && rest[i].port == port;
            assert(sockets[i].state == TcpState::Listen && sockets[i].port == port);
        }
        if exists|i: int|
            0 <= i < sockets.len() && (#[trigger] sockets[i]).state == TcpState::Listen
                && sockets[i].port == port {
            let i = choose|i: int|
                0 <= i < sockets.len() && (#[trigger] sockets[i]).state == TcpState::Listen
                    && sockets[i].port == port;
            if i < rest.len() {
                assert(rest[i].state == TcpState::Listen && rest[i].port == port);
            }
        }
        if s.state == TcpState::Listen && s.port == port {
            assert(sockets[sockets.len() - 1].state == TcpState::Listen);
        }
    }
}

/// Every listener outside the allowlist is reported.
pub proof fn every_unlisted_port_is_reported(s: Seq<Listener>, allowed: Set<u16>, at: int)
    requires
        0 <= at < s.len(),
        !allowed.contains(s[at].port),
    ensures
        unlisted_ports(s, allowed).contains(listener_text(s[at])),
    decreases s.len(),
{
    let d = unlisted_ports(s, allowed);
    let before = unlisted_ports(s.drop_last(), allowed);
    if at == s.len() - 1 {
        assert(d[before.len() as int] == listener_text(s[at]));
    } else {
        every_unlisted_port_is_reported(s.drop_last(), allowed, at);
        assert(s.drop_last()[at] == s[at]);
        assert(d[before.index_of(listener_text(s[at]))] == listener_text(s[at]));
    }
}

/// Where every listening port is allowed nothing is reported.
pub proof fn allowed_ports_are_quiet(s: Seq<Listener>, allowed: Set<u16>)
    requires
        forall|i: int| 0 <= i < s.len() ==> allowed.contains((#[trigger] s[i]).port),
    ensures
        unlisted_ports(s, allowed).len() == 0,
    decreases s.len(),
{
    if s.len() > 0 {
        assert(allowed.contains(s[s.len() - 1].port));
        assert forall|i: int| 0 <= i < s.drop_last().len() implies allowed.contains(
            (#[trigger] s.drop_last()[i]).port,
        ) by {
            assert(allowed.contains(s[i].port));
        }
        allowed_ports_are_quiet(s.drop_last(), allowed);
    }
}

/// Nothing but listeners outside the allowlist is reported.
pub proof fn only_unlisted_ports_are_reported(s: Seq<Listener>, allowed: Set<u16>, k: int)
    requires
        0 <= k < unlisted_ports(s, allowed).len(),
    ensures
        exists|i: int|
            0 <= i < s.len() && !allowed.contains((#[trigger] s[i]).port) && unlisted_ports(
                s,
                allowed,
            )[k] == listener_text(s[i]),
    decreases s.len(),
{
    if s.len() > 0 {
        let rest = s.drop_last();
        let before = unlisted_ports(rest, allowed);
        if k < before.len() {
            only_unlisted_ports_are_reported(rest, allowed, k);
            let i = choose|i: int|
                0 <= i < rest.len() && !allowed.contains((#[trigger] rest[i]).port) && before[k]
                    == listener_text(rest[i]);
            assert(s[i] == rest[i]);
        } else {
            assert(!allowed.contains(s[s.len() - 1].port));
        }
    }
}

/// The first socket that listens on a port is among the listeners.
pub proof fn first_socket_listens(sockets: Seq<TcpSocket>, i: int)
    requires
        0 <= i < sockets.len(),
        sockets[i].state == TcpState::Listen,
        forall|j: int|
            0 <= j < i ==> !((#[trigger] sockets[j]).state == TcpState::Listen && sockets[j].port
                == sockets[i].port),
    ensures
        listeners(sockets).contains(as_listener(sockets[i])),
    decreases sockets.len(),
{
    let rest = sockets.drop_last();
    let s = sockets.last();
    let before = listeners(rest);
    one_listener_per_port(rest, s.port);
    if i == rest.len() {
        if has_port(before, s.port) {
            let j = choose|j: int|
                0 <= j < rest.len() && (#[trigger] rest[j]).state == TcpState::Listen
                    && rest[j].port == s.port;
            assert(sockets[j].state == TcpState::Listen);
        }
        by_port_keeps_order(before, as_listener(s));
    } else {
        assert forall|j: int| 0 <= j < i implies !((#[trigger] rest[j]).state == TcpState::Listen
            && rest[j].port == rest[i].port) by {
            assert(rest[j] == sockets[j]);
        }
        first_socket_listens(rest, i);
        if s.state == TcpState::Listen && !has_port(before, s.port) {
            by_port_keeps_order(before, as_listener(s));
        }
    }
}

/// Whatever `collect_listening_tcp` gives, the first socket that listens on a port is
/// its listener: with its address, and with the first of its processes where it has
/// any. There is one listener per port, in the order of the ports.
pub proof fn listeners_are_first_sockets(
    sockets: &Vec<TcpSocket>,
    r: Vec<ListeningSocket>,
    i: int,
)
    requires
        call_ensures(collect_listening_tcp, (sockets,), r),
        0 <= i < sockets@.len(),
        sockets@[i].state == TcpState::Listen,
        forall|j: int|
            0 <= j < i ==> !((#[trigger] sockets@[j]).state == TcpState::Listen
                && sockets@[j].port == sockets@[i].port),
    ensures
        exists|x: int|
            0 <= x < r@.len() && (#[trigger] r@[x]).port == sockets@[i].port && r@[x].addr@
                == sockets@[i].addr@ && (r@[x].pid is None) == (sockets@[i].pids@.len() == 0) && (
            sockets@[i].pids@.len() > 0 ==> r@[x].pid == Some(sockets@[i].pids@[0])),
        forall|x: int, y: int|
            0 <= x < y < r@.len() ==> (#[trigger] r@[x]).port < (#[trigger] r@[y]).port,
{
    let s = listeners(sockets@);
    let l = as_listener(sockets@[i]);
    first_socket_listens(sockets@, i);
    let x = s.index_of(l);
    assert(listeners_of(r@)[x] == r@[x]@);
    assert(r@[x]@ == l);
    one_listener_per_port(sockets@, sockets@[i].port);
    assert forall|x: int, y: int| 0 <= x < y < r@.len() implies (#[trigger] r@[x]).port < (
    #[trigger] r@[y]).port by {
        assert(s[x] == r@[x]@ && s[y] == r@[y]@);
    }
}

/// Whatever `collect_listening_tcp` gives, each listener is a socket that listens, and
/// where no socket listens on a port there is no listener for it.
pub proof fn only_listening_sockets_are_listeners(
    sockets: &Vec<TcpSocket>,
    r: Vec<ListeningSocket>,
    x: int,
)
    requires
        call_ensures(collect_listening_tcp, (sockets,), r),
        0 <= x < r@.len(),
    ensures
        exists|i: int|
            0 <= i < sockets@.len() && (#[trigger] sockets@[i]).state == TcpState::Listen
                && sockets@[i].port == r@[x].port,
{
    let s = listeners(sockets@);
    assert(s[x] == r@[x]@);
    one_listener_per_port(sockets@, r@[x].port);
    assert(has_port(s, r@[x].port)) by {
        assert(s[x].port == r@[x].port);
    }
}

/// One listener more is reported exactly if its port is not allowed, with its address,
/// its port and, where it has one, its process. What was reported before stays.
pub proof fn unlisted_ports_add_up(s: Seq<Listener>, l: Listener, allowed: Set<u16>)
    ensures
        unlisted_ports(s.push(l), allowed) == if allowed.contains(l.port) {
            unlisted_ports(s, allowed)
        } else {
            let place = "listening on "@ + l.addr + ":"@ + decimal(l.port as nat);
            unlisted_ports(s, allowed).push(
                if l.pid is Some {
                    place + " (pid "@ + decimal(l.pid->Some_0 as nat) + ")"@
                } else {
                    place
                },
            )
        },
        unlisted_ports(Seq::empty(), allowed).len() == 0,
{
    assert(s.push(l).drop_last() =~= s);
    let place = "listening on "@ + l.addr + ":"@ + decimal(l.port as nat);
    assert(place + Seq::<char>::empty() =~= place);
    if l.pid is Some {
        assert(listener_text(l) =~= place + " (pid "@ + decimal(l.pid->Some_0 as nat) + ")"@);
    }
}

/// Whatever `unlisted_sockets` gives, a listener whose port is not allowed is told of.
pub proof fn every_unlisted_port_is_told(
    sockets: &Vec<ListeningSocket>,
    allowed: &BTreeSet<u16>,
    r: Vec<String>,
    at: int,
)
    requires
        call_ensures(unlisted_sockets, (sockets, allowed), r),
        0 <= at < sockets@.len(),
        !allowed@.contains(sockets@[at].port),
    ensures
        ({
            let l = sockets@[at];
            let place = "listening on "@ + l.addr@ + ":"@ + decimal(l.port as nat);
            exists|x: int|
                0 <= x < r@.len() && (#[trigger] r@[x])@ == if l.pid is Some {
                    place + " (pid "@ + decimal(l.pid->Some_0 as nat) + ")"@
                } else {
                    place
                }
        }),
{
    let s = listeners_of(sockets@);
    let d = unlisted_ports(s, allowed@);
    assert(s[at] == sockets@[at]@);
    every_unlisted_port_is_reported(s, allowed@, at);
    let x = d.index_of(listener_text(s[at]));
    assert(r@[x]@ == d[x]);
    let l = s[at];
    let place = "listening on "@ + l.addr + ":"@ + decimal(l.port as nat);
    assert(place + Seq::<char>::empty() =~= place);
    if l.pid is Some {
        assert(listener_text(l) =~= place + " (pid "@ + decimal(l.pid->Some_0 as nat) + ")"@);
    }
}

/// Whatever `unlisted_sockets` gives, there are as many texts as listeners whose port is
/// not allowed, and none where all are.
pub proof fn only_unlisted_ports_are_told(
    sockets: &Vec<ListeningSocket>,
    allowed: &BTreeSet<u16>,
    r: Vec<String>,
)
    requires
        call_ensures(unlisted_sockets, (sockets, allowed), r),
    ensures
        r@.len() == sockets@.filter(|l: ListeningSocket| !allowed@.contains(l.port)).len(),
{
    let s = listeners_of(sockets@);
    assert(texts(r@).len() == r@.len());
    as_many_as_unlisted(sockets@, allowed@);
}

proof fn as_many_as_unlisted(sockets: Seq<ListeningSocket>, allowed: Set<u16>)
    ensures
        unlisted_ports(listeners_of(sockets), allowed).len() == sockets.filter(
            |l: ListeningSocket| !allowed.contains(l.port),
        ).len(),
    decreases sockets.len(),
{
    reveal(Seq::filter);
    if sockets.len() > 0 {
        as_many_as_unlisted(sockets.drop_last(), allowed);
        assert(listeners_of(sockets).drop_last() =~= listeners_of(sockets.drop_last()));
    }
}

} // verus!
