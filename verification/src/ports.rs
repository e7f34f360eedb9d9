//! Terminal listener observations: attributing local listening sockets to the terminal surfaces
//! whose processes own them, attributing remote daemons' observations to remote terminals, and
//! the sidebar's port label.
use crate::inbox_actions::{first_where, lemma_first_where, lemma_first_where_at};
use crate::text::{chars_equal, chars_of, decimal, push_decimal};
use vstd::prelude::*;
use vstd::string::StringExecFns;

verus! {

/// Most listeners a workspace observation may attribute.
pub const MAX_PORTS: usize = 256;

/// Most port numbers the sidebar label shows.
pub const MAX_LABEL_PORTS: usize = 8;

/// A listening address: IPv4 or IPv6, by its numeric value.
#[derive(Debug, Clone, Copy, PartialEq, Eq, Structural)]
pub enum Address {
    V4(u32),
    V6(u128),
}

/// Where an observation came from.
#[derive(Debug, Clone, Copy, PartialEq, Eq, Structural)]
pub enum Provenance {
    Local,
    Remote,
}

/// A listener attributed to an existing terminal surface.
#[derive(Debug, Clone, Copy, PartialEq, Eq, Structural)]
pub struct Port {
    pub surface_uuid: u128,
    pub address: Address,
    pub port: u16,
    pub pid: u32,
    pub provenance: Provenance,
    pub forwarded_local_port: Option<u16>,
}

/// A process, by its pid and the identity that tells a reused pid apart.
#[derive(Debug, Clone, Copy, PartialEq, Eq, Structural)]
pub struct Process {
    pub pid: u32,
    pub identity: u64,
}

/// A listening TCP socket and the process that owns it.
#[derive(Debug, Clone, Copy, PartialEq, Eq, Structural)]
pub struct Listener {
    pub process: Process,
    pub address: Address,
    pub port: u16,
}

/// Why an observation was refused.
#[derive(Debug, PartialEq, Eq, Structural)]
pub enum PortError {
    /// More than `MAX_PORTS` listeners would be attributed.
    LimitExceeded,
}

impl PortError {
    /// The message this refusal is reported with.
    pub fn message(&self) -> (m: &'static str)
        ensures
            m@ == "workspace listener limit exceeded"@,
    {
        proof {
            reveal_strlit("workspace listener limit exceeded");
        }
        "workspace listener limit exceeded"
    }
}

/// Address order: every IPv4 address before every IPv6 one, then by value.
pub open spec fn addr_lt(a: Address, b: Address) -> bool {
    match (a, b) {
        (Address::V4(x), Address::V4(y)) => x < y,
        (Address::V4(_), Address::V6(_)) => true,
        (Address::V6(_), Address::V4(_)) => false,
        (Address::V6(x), Address::V6(y)) => x < y,
    }
}

/// Port order: by port number, surface, pid, then address.
pub open spec fn port_lt(a: Port, b: Port) -> bool {
    if a.port != b.port {
        a.port < b.port
    } else if a.surface_uuid != b.surface_uuid {
        a.surface_uuid < b.surface_uuid
    } else if a.pid != b.pid {
        a.pid < b.pid
    } else {
        addr_lt(a.address, b.address)
    }
}

/// Whether ports strictly ascend, so that each occurs once.
pub open spec fn ascending(s: Seq<Port>) -> bool {
    forall|i: int, j: int| 0 <= i < j < s.len() ==> port_lt(#[trigger] s[i], #[trigger] s[j])
}

/// How many terminals have controlling device `d`.
pub open spec fn match_count(terminals: Seq<(u128, u64)>, d: u64) -> nat
    decreases terminals.len(),
{
    if terminals.len() == 0 {
        0
    } else {
        match_count(terminals.drop_last(), d) + if terminals.last().1 == d {
            1nat
        } else {
            0nat
        }
    }
}

/// Whether a terminal has controlling device `d`.
pub open spec fn on_device(d: u64) -> spec_fn((u128, u64)) -> bool {
    |t: (u128, u64)| t.1 == d
}

/// Index of the first terminal with device `d`, or the count.
pub open spec fn first_match(terminals: Seq<(u128, u64)>, d: u64) -> int {
    first_where(terminals, on_device(d))
}

/// Processes owned by a terminal, in process order: a process whose controlling terminal is the
/// device of exactly one supplied terminal belongs to that terminal's surface.
pub open spec fn owners(terminals: Seq<(u128, u64)>, processes: Seq<(Process, Option<u64>)>) -> Seq<
    (Process, u128),
>
    decreases processes.len(),
{
    if processes.len() == 0 {
        Seq::empty()
    } else {
        let prev = owners(terminals, processes.drop_last());
        match processes.last().1 {
            Some(d) => if match_count(terminals, d) == 1 {
                prev.push((processes.last().0, terminals[first_match(terminals, d)].0))
            } else {
                prev
            },
            None => prev,
        }
    }
}

/// Whether an owner entry is for process `p`.
pub open spec fn for_process(p: Process) -> spec_fn((Process, u128)) -> bool {
    |o: (Process, u128)| o.0 == p
}

/// Index of the first owner entry for process `p`, or the count.
pub open spec fn owner_index(owners: Seq<(Process, u128)>, p: Process) -> int {
    first_where(owners, for_process(p))
}

/// The local ports attributed to listeners, in listener order: a listener of an owned process
/// belongs to the owner's surface.
pub open spec fn candidates(owners: Seq<(Process, u128)>, listeners: Seq<Listener>) -> Seq<Port>
    decreases listeners.len(),
{
    if listeners.len() == 0 {
        Seq::empty()
    } else {
        let prev = candidates(owners, listeners.drop_last());
        let l = listeners.last();
        let i = owner_index(owners, l.process);
        if i < owners.len() {
            prev.push(
                Port {
                    surface_uuid: owners[i].1,
                    address: l.address,
                    port: l.port,
                    pid: l.process.pid,
                    provenance: Provenance::Local,
                    forwarded_local_port: None,
                },
            )
        } else {
            prev
        }
    }
}

/// Whether attribution runs out of room: a listener is reached with `MAX_PORTS` ports already
/// attributed.
pub open spec fn over_limit(owners: Seq<(Process, u128)>, listeners: Seq<Listener>) -> bool {
    listeners.len() > 0 && candidates(owners, listeners.drop_last()).len() >= MAX_PORTS
}

/// Whether a port is a local observation without forwarding.
pub open spec fn plain_local(p: Port) -> bool {
    p.provenance == Provenance::Local && p.forwarded_local_port is None
}

proof fn lemma_candidates_local(owners: Seq<(Process, u128)>, listeners: Seq<Listener>)
    ensures
        forall|k: int|
            0 <= k < candidates(owners, listeners).len() ==> plain_local(
                #[trigger] candidates(owners, listeners)[k],
            ),
    decreases listeners.len(),
{
    if listeners.len() > 0 {
        lemma_candidates_local(owners, listeners.drop_last());
        let prev = candidates(owners, listeners.drop_last());
        let c = candidates(owners, listeners);
        assert forall|k: int| 0 <= k < c.len() implies plain_local(#[trigger] c[k]) by {
            if k < prev.len() {
                assert(c[k] == prev[k]);
            }
        }
    }
}

proof fn lemma_candidates_grow(owners: Seq<(Process, u128)>, listeners: Seq<Listener>, j: int)
    requires
        0 <= j <= listeners.len(),
    ensures
        candidates(owners, listeners.take(j)).len() <= candidates(owners, listeners).len(),
    decreases listeners.len() - j,
{
    if j < listeners.len() {
        lemma_candidates_grow(owners, listeners, j + 1);
        assert(listeners.take(j + 1).drop_last() =~= listeners.take(j));
    } else {
        assert(listeners.take(j) =~= listeners);
    }
}

/// Whether two ports agree on what orders them: port number, surface, pid and address.
pub open spec fn same_key(a: Port, b: Port) -> bool {
    a.port == b.port && a.surface_uuid == b.surface_uuid && a.pid == b.pid && a.address == b.address
}

/// Ports that are ordered neither way agree on what orders them; the order is irreflexive and
/// transitive.
proof fn lemma_port_order(a: Port, b: Port, c: Port)
    ensures
        !port_lt(a, a),
        !port_lt(a, b) && !port_lt(b, a) ==> same_key(a, b),
        port_lt(a, b) && port_lt(b, c) ==> port_lt(a, c),
        port_lt(a, b) ==> !port_lt(b, a),
{
}

/// Number of terminals with device `d` and the surface of the first.
fn match_terminal(terminals: &[(u128, u64)], d: u64) -> (r: (usize, u128))
    ensures
        r.0 == match_count(terminals@, d) || (r.0 == 2 && match_count(terminals@, d) >= 2),
        r.0 == 1 ==> r.1 == terminals@[first_match(terminals@, d)].0,
{
    let mut count: usize = 0;
    let mut first: u128 = 0;
    let mut k: usize = 0;
    while k < terminals.len()
        invariant
            k <= terminals@.len(),
            count <= 2,
            count < 2 ==> count == match_count(terminals@.take(k as int), d),
            count == 2 ==> match_count(terminals@.take(k as int), d) >= 2,
            count >= 1 ==> first == terminals@[first_match(terminals@, d)].0,
            count >= 1 ==> first_match(terminals@, d) < k,
            count == 0 ==> forall|j: int| 0 <= j < k ==> (#[trigger] terminals@[j]).1 != d,
        decreases terminals@.len() - k,
    {
        proof {
            assert(terminals@.take(k + 1).drop_last() =~= terminals@.take(k as int));
        }
        if terminals[k].1 == d {
            if count == 0 {
                first = terminals[k].0;
                proof {
                    let p = on_device(d);
                    assert forall|j: int| 0 <= j < k implies !p(#[trigger] terminals@[j]) by {}
                    assert(p(terminals@[k as int]));
                    lemma_first_where_at(terminals@, p, k as int);
                }
            }
            if count < 2 {
                count = count + 1;
            }
        }
        k = k + 1;
    }
    assert(terminals@.take(k as int) =~= terminals@);
    (count, first)
}

/// Insert a port into an ascending list unless it is already there; a port of the list that
/// agrees with it on what orders them is it.
fn insert_port(ports: &mut Vec<Port>, p: Port)
    requires
        ascending(old(ports)@),
        forall|k: int|
            0 <= k < old(ports)@.len() && same_key(#[trigger] old(ports)@[k], p) ==> old(ports)@[k] == p,
    ensures
        ascending(final(ports)@),
        forall|q: Port| final(ports)@.contains(q) <==> (old(ports)@.contains(q) || q == p),
        final(ports)@.len() <= old(ports)@.len() + 1,
{
    let ghost before = ports@;
    let mut i: usize = 0;
    while i < ports.len() && port_before(&ports[i], &p)
        invariant
            ports@ == before,
            i <= before.len(),
            forall|j: int| 0 <= j < i ==> port_lt(#[trigger] before[j], p),
        decreases before.len() - i,
    {
        i = i + 1;
    }
    if i < ports.len() && ports[i] == p {
        assert(ports@[i as int] == p);
        return;
    }
    proof {
        if i < before.len() {
            lemma_port_order(before[i as int], p, p);
            assert(port_lt(p, before[i as int]));
        }
    }
    ports.insert(i, p);
    proof {
        let after = ports@;
        assert(after =~= before.insert(i as int, p));
        assert forall|a: int, b: int| 0 <= a < b < after.len() implies port_lt(#[trigger] after[a], #[trigger] after[b]) by {
            if b < i {
            } else if a < i && b == i {
            } else if a < i {
                lemma_port_order(after[a], p, after[b]);
                if i < before.len() {
                    lemma_port_order(p, before[i as int], after[b]);
                }
                lemma_port_order(after[a], before[b - 1], after[b]);
                assert(after[b] == before[b - 1]);
                assert(port_lt(after[a], p));
                if b - 1 > i as int {
                    assert(port_lt(before[i as int], before[b - 1]));
                    lemma_port_order(p, before[i as int], before[b - 1]);
                    lemma_port_order(after[a], p, before[b - 1]);
                } else {
                    lemma_port_order(after[a], p, before[i as int]);
                }
            } else if a == i {
                assert(after[b] == before[b - 1]);
                if b - 1 > i as int {
                    lemma_port_order(p, before[i as int], before[b - 1]);
                }
            } else {
                assert(after[a] == before[a - 1] && after[b] == before[b - 1]);
            }
        }
        assert forall|q: Port| after.contains(q) <==> (before.contains(q) || q == p) by {
            if after.contains(q) {
                let k = choose|k: int| 0 <= k < after.len() && after[k] == q;
                if k < i {
                    assert(before[k] == q);
                } else if k > i {
                    assert(before[k - 1] == q);
                }
            }
            if before.contains(q) {
                let k = choose|k: int| 0 <= k < before.len() && before[k] == q;
                if k < i {
                    assert(after[k] == q);
                } else {
                    assert(after[k + 1] == q);
                }
            }
            if q == p {
                assert(after[i as int] == q);
            }
        }
    }
}

/// Whether `a` sorts before `b`.
fn port_before(a: &Port, b: &Port) -> (r: bool)
    ensures
        r == port_lt(*a, *b),
{
    if a.port != b.port {
        a.port < b.port
    } else if a.surface_uuid != b.surface_uuid {
        a.surface_uuid < b.surface_uuid
    } else if a.pid != b.pid {
        a.pid < b.pid
    } else {
        match (a.address, b.address) {
            (Address::V4(x), Address::V4(y)) => x < y,
            (Address::V4(_), Address::V6(_)) => true,
            (Address::V6(_), Address::V4(_)) => false,
            (Address::V6(x), Address::V6(y)) => x < y,
        }
    }
}

/// Attribute listening sockets to terminal surfaces. `terminals` holds each local terminal's
/// surface and controlling device, `processes` each descendant process with its controlling
/// device, in tree order, and `listeners` the listening sockets of those processes. The result
/// holds each attributed port once, in port order.
pub fn attribute(
    terminals: &[(u128, u64)],
    processes: &[(Process, Option<u64>)],
    listeners: &[Listener],
) -> (r: Result<Vec<Port>, PortError>)
    ensures
        over_limit(owners(terminals@, processes@), listeners@) ==> r == Err::<Vec<Port>, PortError>(
            PortError::LimitExceeded,
        ),
        !over_limit(owners(terminals@, processes@), listeners@) ==> (r matches Ok(ps) && ascending(
            ps@,
        ) && forall|q: Port|
            ps@.contains(q) <==> candidates(owners(terminals@, processes@), listeners@).contains(q)),
{
    let mut owned: Vec<(Process, u128)> = Vec::new();
    let mut k: usize = 0;
    while k < processes.len()
        invariant
            k <= processes@.len(),
            owned@ == owners(terminals@, processes@.take(k as int)),
        decreases processes@.len() - k,
    {
        proof {
            assert(processes@.take(k + 1).drop_last() =~= processes@.take(k as int));
        }
        if let Some(d) = processes[k].1 {
            let (count, surface) = match_terminal(terminals, d);
            if count == 1 {
                owned.push((processes[k].0, surface));
            }
        }
        k = k + 1;
    }
    assert(processes@.take(k as int) =~= processes@);
    let ghost os = owned@;
    let mut ports: Vec<Port> = Vec::new();
    let mut attributed: usize = 0;
    let mut j: usize = 0;
    while j < listeners.len()
        invariant
            owned@ == os,
            os == owners(terminals@, processes@),
            j <= listeners@.len(),
            attributed == candidates(os, listeners@.take(j as int)).len(),
            ascending(ports@),
            forall|x: int| 0 <= x < ports@.len() ==> plain_local(#[trigger] ports@[x]),
            forall|q: Port| ports@.contains(q) <==> candidates(os, listeners@.take(j as int)).contains(q),
            forall|x: int| 0 <= x < j ==> candidates(os, listeners@.take(x)).len() < MAX_PORTS,
        decreases listeners@.len() - j,
    {
        if attributed >= MAX_PORTS {
            proof {
                lemma_candidates_grow(os, listeners@.drop_last(), j as int);
                assert(listeners@.drop_last().take(j as int) =~= listeners@.take(j as int));
            }
            return Err(PortError::LimitExceeded);
        }
        proof {
            assert(listeners@.take(j + 1).drop_last() =~= listeners@.take(j as int));
            assert(listeners@.take(j + 1).last() == listeners@[j as int]);
            lemma_candidates_local(os, listeners@.take(j + 1));
        }
        let l = listeners[j];
        let mut i: usize = 0;
        while i < owned.len() && owned[i].0 != l.process
            invariant
                owned@ == os,
                i <= os.len(),
                forall|x: int| 0 <= x < i ==> (#[trigger] os[x]).0 != l.process,
            decreases os.len() - i,
        {
            i = i + 1;
        }
        proof {
            let p = for_process(l.process);
            assert forall|x: int| 0 <= x < i implies !p(#[trigger] os[x]) by {}
            if i < os.len() {
                assert(os[i as int] == owned@[i as int]);
                assert(p(os[i as int]));
            }
            lemma_first_where_at(os, p, i as int);
            assert(l == listeners@[j as int]);
            assert(owner_index(os, l.process) == i as int);
        }
        if i == owned.len() {
            assert(candidates(os, listeners@.take(j + 1)) == candidates(os, listeners@.take(j as int)));
        }
        if i < owned.len() {
            let p = Port {
                surface_uuid: owned[i].1,
                address: l.address,
                port: l.port,
                pid: l.process.pid,
                provenance: Provenance::Local,
                forwarded_local_port: None,
            };
            let ghost ports_before = ports@;
            insert_port(&mut ports, p);
            attributed = attributed + 1;
            proof {
                let c = candidates(os, listeners@.take(j as int));
                assert(candidates(os, listeners@.take(j + 1)) == c.push(p));
                assert forall|x: int| 0 <= x < ports@.len() implies plain_local(#[trigger] ports@[x]) by {
                    assert(ports@.contains(ports@[x]));
                    if ports_before.contains(ports@[x]) {
                        let y = choose|y: int| 0 <= y < ports_before.len() && ports_before[y] == ports@[x];
                        assert(plain_local(ports_before[y]));
                    }
                }
                assert forall|q: Port| c.push(p).contains(q) <==> (c.contains(q) || q == p) by {
                    if c.push(p).contains(q) {
                        let x = choose|x: int| 0 <= x < c.push(p).len() && c.push(p)[x] == q;
                        if x < c.len() {
                            assert(c[x] == q);
                        }
                    }
                    if c.contains(q) {
                        let x = choose|x: int| 0 <= x < c.len() && c[x] == q;
                        assert(c.push(p)[x] == q);
                    }
                    if q == p {
                        assert(c.push(p)[c.len() as int] == q);
                    }
                }
            }
        }
        j = j + 1;
    }
    assert(listeners@.take(j as int) =~= listeners@);
    proof {
        if listeners@.len() > 0 {
            assert(listeners@.take(j - 1) =~= listeners@.drop_last());
        }
    }
    Ok(ports)
}

/// A listener a remote daemon reports for a terminal's pane.
#[derive(Debug, Clone, Copy, PartialEq, Eq, Structural)]
pub struct RemoteRow {
    pub address: Address,
    pub port: u16,
    pub pid: u32,
}

/// What a remote terminal's session context holds: whether its stream ended, the stream it
/// runs on, and the daemon's latest observation for its pane (the stream it was made on, and
/// its rows, `None` for a failed or unavailable scan).
pub struct RemoteContext {
    pub eof_received: bool,
    pub stream: Option<String>,
    pub observation: Option<(String, Option<Vec<RemoteRow>>)>,
}

/// A live terminal surface of a remote workspace, and the session context serving it.
pub struct RemoteTerminal {
    pub surface_uuid: u128,
    pub context: Option<RemoteContext>,
}

/// Whether a forwarding entry is for address `a` and port `n`.
pub open spec fn forwards(a: Address, n: u16) -> spec_fn(((Address, u16), u16)) -> bool {
    |e: ((Address, u16), u16)| e.0.0 == a && e.0.1 == n
}

/// The local port a remote address and port is forwarded to, if any.
pub open spec fn forwarded_for(forwarded: Seq<((Address, u16), u16)>, a: Address, n: u16) -> Option<u16> {
    let k = first_where(forwarded, forwards(a, n));
    if k < forwarded.len() {
        Some(forwarded[k].1)
    } else {
        None
    }
}

/// The port a remote row gives for a surface.
pub open spec fn remote_port(surface: u128, row: RemoteRow, forwarded: Seq<((Address, u16), u16)>) -> Port {
    Port {
        surface_uuid: surface,
        address: row.address,
        port: row.port,
        pid: row.pid,
        provenance: Provenance::Remote,
        forwarded_local_port: forwarded_for(forwarded, row.address, row.port),
    }
}

/// The ports each row gives for a surface, in row order.
pub open spec fn row_ports(surface: u128, rows: Seq<RemoteRow>, forwarded: Seq<((Address, u16), u16)>) -> Seq<Port> {
    rows.map_values(|r: RemoteRow| remote_port(surface, r, forwarded))
}

/// The rows a terminal contributes: none once its stream ended; unknown (`None`) without a
/// context, a stream, an observation, an observation of its current stream, or scan rows.
pub open spec fn terminal_ports(t: RemoteTerminal, forwarded: Seq<((Address, u16), u16)>) -> Option<Seq<Port>> {
    match t.context {
        None => None,
        Some(c) => if c.eof_received {
            Some(Seq::empty())
        } else {
            match (c.stream, c.observation) {
                (Some(s), Some((o, rows))) => if o@ != s@ {
                    None
                } else {
                    match rows {
                        Some(rs) => Some(row_ports(t.surface_uuid, rs@, forwarded)),
                        None => None,
                    }
                },
                _ => None,
            }
        },
    }
}

/// The ports of all terminals, in terminal order; unknown when any terminal's are.
pub open spec fn remote_candidates(ts: Seq<RemoteTerminal>, forwarded: Seq<((Address, u16), u16)>) -> Option<Seq<Port>>
    decreases ts.len(),
{
    if ts.len() == 0 {
        Some(Seq::empty())
    } else {
        match (remote_candidates(ts.drop_last(), forwarded), terminal_ports(ts.last(), forwarded)) {
            (Some(prev), Some(more)) => Some(prev + more),
            _ => None,
        }
    }
}

/// Whether a port is a remote observation forwarded as `forwarded` says.
pub open spec fn remote_like(p: Port, forwarded: Seq<((Address, u16), u16)>) -> bool {
    p.provenance == Provenance::Remote && p.forwarded_local_port == forwarded_for(forwarded, p.address, p.port)
}

/// The local port a remote address and port is forwarded to.
fn find_forwarded(forwarded: &[((Address, u16), u16)], a: Address, n: u16) -> (r: Option<u16>)
    ensures
        r == forwarded_for(forwarded@, a, n),
{
    let mut k: usize = 0;
    while k < forwarded.len() && !(forwarded[k].0.0 == a && forwarded[k].0.1 == n)
        invariant
            k <= forwarded@.len(),
            forall|j: int| 0 <= j < k ==> !forwards(a, n)(#[trigger] forwarded@[j]),
        decreases forwarded@.len() - k,
    {
        k = k + 1;
    }
    proof {
        if k < forwarded@.len() {
            assert(forwards(a, n)(forwarded@[k as int]));
        }
        lemma_first_where_at(forwarded@, forwards(a, n), k as int);
    }
    if k < forwarded.len() {
        Some(forwarded[k].1)
    } else {
        None
    }
}

/// Whether two texts are equal.
fn same_text(a: &String, b: &String) -> (r: bool)
    ensures
        r == (a@ == b@),
{
    let v = chars_of(a.as_str());
    chars_equal(&v, b.as_str())
}

/// Remote listeners of a workspace's live terminal surfaces (`terminals`, in listing order),
/// attributed to those surfaces while the workspace is connected. Each terminal's daemon
/// observation must be of its current stream; a terminal whose stream ended adds nothing, and
/// any other missing piece leaves the result unknown (`None`), as does a connection that is
/// down or more than `MAX_PORTS` rows. Each port occurs once, in port order, with the local port
/// `forwarded` lists for its address and port.
pub fn remote_ports(connected: bool, terminals: &[RemoteTerminal], forwarded: &[((Address, u16), u16)]) -> (r: Option<Vec<Port>>)
    ensures
        r is Some <==> (connected && remote_candidates(terminals@, forwarded@) is Some
            && remote_candidates(terminals@, forwarded@)->Some_0.len() <= MAX_PORTS),
        r matches Some(ps) ==> ascending(ps@) && forall|q: Port|
            ps@.contains(q) <==> remote_candidates(terminals@, forwarded@)->Some_0.contains(q),
{
    if !connected {
        return None;
    }
    let ghost ts = terminals@;
    let ghost fw = forwarded@;
    let mut ports: Vec<Port> = Vec::new();
    let mut pushed: usize = 0;
    let mut i: usize = 0;
    assert(ts.take(0) =~= Seq::<RemoteTerminal>::empty());
    while i < terminals.len()
        invariant
            ts == terminals@,
            fw == forwarded@,
            i <= ts.len(),
            remote_candidates(ts.take(i as int), fw) is Some,
            pushed == remote_candidates(ts.take(i as int), fw)->Some_0.len(),
            pushed <= MAX_PORTS,
            ascending(ports@),
            forall|x: int| 0 <= x < ports@.len() ==> remote_like(#[trigger] ports@[x], fw),
            forall|q: Port| ports@.contains(q) <==> remote_candidates(ts.take(i as int), fw)->Some_0.contains(q),
        decreases ts.len() - i,
    {
        let t = &terminals[i];
        let ghost prev = remote_candidates(ts.take(i as int), fw)->Some_0;
        proof {
            assert(ts.take(i + 1).drop_last() =~= ts.take(i as int));
            assert(ts.take(i + 1).last() == ts[i as int]);
        }
        let c = match &t.context {
            Some(c) => c,
            None => {
                proof { lemma_remote_unknown(ts, fw, i + 1); }
                return None;
            },
        };
        if !c.eof_received {
            let rows = match (&c.stream, &c.observation) {
                (Some(s), Some((o, rows))) => {
                    if !same_text(o, s) {
                        proof { lemma_remote_unknown(ts, fw, i + 1); }
                        return None;
                    }
                    match rows {
                        Some(rows) => rows,
                        None => {
                            proof { lemma_remote_unknown(ts, fw, i + 1); }
                            return None;
                        },
                    }
                },
                _ => {
                    proof { lemma_remote_unknown(ts, fw, i + 1); }
                    return None;
                },
            };
            let ghost more = row_ports(t.surface_uuid, rows@, fw);
            assert(terminal_ports(*t, fw) == Some(more));
            assert(*t == ts[i as int]);
            let mut j: usize = 0;
            while j < rows.len()
                invariant
                    ts == terminals@,
                    fw == forwarded@,
                    i < ts.len(),
                    more == row_ports(t.surface_uuid, rows@, fw),
                    terminal_ports(ts[i as int], fw) == Some(more),
                    remote_candidates(ts.take(i as int), fw) is Some,
                    prev == remote_candidates(ts.take(i as int), fw)->Some_0,
                    j <= rows@.len(),
                    pushed == prev.len() + j,
                    pushed <= MAX_PORTS,
                    ascending(ports@),
                    forall|x: int| 0 <= x < ports@.len() ==> remote_like(#[trigger] ports@[x], fw),
                    forall|q: Port| ports@.contains(q) <==> (prev + more.take(j as int)).contains(q),
                decreases rows@.len() - j,
            {
                if pushed >= MAX_PORTS {
                    proof {
                        assert(ts.take(i + 1).drop_last() =~= ts.take(i as int));
                        assert(ts.take(i + 1).last() == ts[i as int]);
                        assert(remote_candidates(ts.take(i + 1), fw) == Some(prev + more));
                        lemma_remote_grows(ts, fw, i + 1);
                    }
                    return None;
                }
                let row = rows[j];
                let f = find_forwarded(forwarded, row.address, row.port);
                let p = Port {
                    surface_uuid: t.surface_uuid,
                    address: row.address,
                    port: row.port,
                    pid: row.pid,
                    provenance: Provenance::Remote,
                    forwarded_local_port: f,
                };
                assert(p == more[j as int]);
                let ghost ports_before = ports@;
                insert_port(&mut ports, p);
                pushed = pushed + 1;
                proof {
                    assert(more.take(j + 1) =~= more.take(j as int).push(p));
                    assert forall|x: int| 0 <= x < ports@.len() implies remote_like(#[trigger] ports@[x], fw) by {
                        assert(ports@.contains(ports@[x]));
                        if ports_before.contains(ports@[x]) {
                            let y = choose|y: int| 0 <= y < ports_before.len() && ports_before[y] == ports@[x];
                            assert(remote_like(ports_before[y], fw));
                        }
                    }
                    let a = prev + more.take(j as int);
                    assert(prev + more.take(j + 1) =~= a.push(p));
                    assert forall|q: Port| a.push(p).contains(q) <==> (a.contains(q) || q == p) by {
                        if a.push(p).contains(q) {
                            let x = choose|x: int| 0 <= x < a.push(p).len() && a.push(p)[x] == q;
                            if x < a.len() {
                                assert(a[x] == q);
                            }
                        }
                        if a.contains(q) {
                            let x = choose|x: int| 0 <= x < a.len() && a[x] == q;
                            assert(a.push(p)[x] == q);
                        }
                        if q == p {
                            assert(a.push(p)[a.len() as int] == q);
                        }
                    }
                }
                j = j + 1;
            }
            assert(more.take(j as int) =~= more);
        } else {
            assert(terminal_ports(*t, fw) == Some(Seq::<Port>::empty()));
            assert(prev + Seq::<Port>::empty() =~= prev);
        }
        i = i + 1;
    }
    assert(ts.take(i as int) =~= ts);
    Some(ports)
}

/// Once a prefix of the terminals is unknown, so is the whole.
proof fn lemma_remote_unknown(ts: Seq<RemoteTerminal>, forwarded: Seq<((Address, u16), u16)>, i: int)
    requires
        0 <= i <= ts.len(),
        remote_candidates(ts.take(i), forwarded) is None,
    ensures
        remote_candidates(ts, forwarded) is None,
    decreases ts.len() - i,
{
    if i < ts.len() {
        assert(ts.take(i + 1).drop_last() =~= ts.take(i));
        lemma_remote_unknown(ts, forwarded, i + 1);
    } else {
        assert(ts.take(i) =~= ts);
    }
}

/// A known whole has at least as many ports as each prefix.
proof fn lemma_remote_grows(ts: Seq<RemoteTerminal>, forwarded: Seq<((Address, u16), u16)>, i: int)
    requires
        0 <= i <= ts.len(),
        remote_candidates(ts.take(i), forwarded) is Some,
    ensures
        remote_candidates(ts, forwarded) is Some ==> remote_candidates(ts, forwarded)->Some_0.len()
            >= remote_candidates(ts.take(i), forwarded)->Some_0.len(),
    decreases ts.len() - i,
{
    if i < ts.len() {
        assert(ts.take(i + 1).drop_last() =~= ts.take(i));
        if remote_candidates(ts.take(i + 1), forwarded) is Some {
            lemma_remote_grows(ts, forwarded, i + 1);
        } else {
            lemma_remote_unknown(ts, forwarded, i + 1);
        }
    } else {
        assert(ts.take(i) =~= ts);
    }
}

/// Whether port numbers strictly ascend.
pub open spec fn numbers_ascending(s: Seq<u16>) -> bool {
    forall|i: int, j: int| 0 <= i < j < s.len() ==> #[trigger] s[i] < #[trigger] s[j]
}

/// Whether some port has number `n`.
pub open spec fn has_number(ports: Seq<Port>, n: u16) -> bool {
    exists|k: int| 0 <= k < ports.len() && (#[trigger] ports[k]).port == n
}

/// The label for some port numbers: each as `:` and its decimal digits, separated by two
/// spaces.
pub open spec fn label_text(numbers: Seq<u16>) -> Seq<char>
    decreases numbers.len(),
{
    if numbers.len() == 0 {
        Seq::empty()
    } else if numbers.len() == 1 {
        ":"@ + decimal(numbers[0] as nat)
    } else {
        label_text(numbers.drop_last()) + "  :"@ + decimal(numbers.last() as nat)
    }
}

/// The distinct port numbers of some ports, ascending.
pub fn port_numbers(ports: &[Port]) -> (r: Vec<u16>)
    ensures
        numbers_ascending(r@),
        forall|n: u16| r@.contains(n) <==> has_number(ports@, n),
{
    let mut out: Vec<u16> = Vec::new();
    let mut k: usize = 0;
    while k < ports.len()
        invariant
            k <= ports@.len(),
            numbers_ascending(out@),
            forall|n: u16| out@.contains(n) <==> has_number(ports@.take(k as int), n),
        decreases ports@.len() - k,
    {
        let n = ports[k].port;
        let ghost before = out@;
        let mut i: usize = 0;
        while i < out.len() && out[i] < n
            invariant
                out@ == before,
                i <= before.len(),
                forall|j: int| 0 <= j < i ==> #[trigger] before[j] < n,
            decreases before.len() - i,
        {
            i = i + 1;
        }
        if !(i < out.len() && out[i] == n) {
            out.insert(i, n);
            proof {
                let after = out@;
                assert(after =~= before.insert(i as int, n));
                assert forall|a: int, b: int| 0 <= a < b < after.len() implies #[trigger] after[a] < #[trigger] after[b] by {
                    if a < i && b > i {
                        assert(after[b] == before[b - 1]);
                        assert(before[i as int] > n);
                        if b - 1 > i {
                            assert(before[i as int] < before[b - 1]);
                        }
                    } else if a == i {
                        assert(after[b] == before[b - 1]);
                        if b - 1 > i {
                            assert(before[i as int] < before[b - 1]);
                        }
                    } else if a > i {
                        assert(after[a] == before[a - 1] && after[b] == before[b - 1]);
                    }
                }
            }
        }
        proof {
            let t = ports@.take(k + 1);
            assert(t.drop_last() =~= ports@.take(k as int));
            assert forall|m: u16| out@.contains(m) <==> has_number(t, m) by {
                if has_number(t, m) {
                    let x = choose|x: int| 0 <= x < t.len() && (#[trigger] t[x]).port == m;
                    if x < k {
                        assert(ports@.take(k as int)[x] == t[x]);
                        assert(has_number(ports@.take(k as int), m));
                        assert(before.contains(m));
                        let y = choose|y: int| 0 <= y < before.len() && before[y] == m;
                        if out@.len() > before.len() {
                            if y < i {
                                assert(out@[y] == m);
                            } else {
                                assert(out@[y + 1] == m);
                            }
                        }
                    } else {
                        if out@.len() > before.len() {
                            assert(out@[i as int] == m);
                        } else {
                            assert(out@[i as int] == m);
                        }
                    }
                }
                if out@.contains(m) {
                    let y = choose|y: int| 0 <= y < out@.len() && out@[y] == m;
                    if out@.len() > before.len() && y == i {
                        assert(t[k as int].port == m);
                    } else {
                        let z = if out@.len() > before.len() && y > i {
                            y - 1
                        } else {
                            y
                        };
                        assert(before[z] == m);
                        assert(before.contains(m));
                        assert(has_number(ports@.take(k as int), m));
                        let x = choose|x: int|
                            0 <= x < ports@.take(k as int).len() && (#[trigger] ports@.take(
                                k as int,
                            )[x]).port == m;
                        assert(t[x] == ports@.take(k as int)[x]);
                    }
                }
            }
        }
        k = k + 1;
    }
    assert(ports@.take(k as int) =~= ports@);
    out
}

/// The label text for ascending port numbers: the first `MAX_LABEL_PORTS` of them.
pub fn label_for(numbers: &[u16]) -> (text: String)
    ensures
        text@ == label_text(numbers@.take(
            if numbers@.len() < MAX_LABEL_PORTS {
                numbers@.len() as int
            } else {
                MAX_LABEL_PORTS as int
            },
        )),
{
    let shown = if numbers.len() < MAX_LABEL_PORTS {
        numbers.len()
    } else {
        MAX_LABEL_PORTS
    };
    let mut text = String::new();
    proof {
        reveal_strlit(":");
        reveal_strlit("  :");
    }
    let mut k: usize = 0;
    while k < shown
        invariant
            shown <= numbers@.len(),
            k <= shown,
            text@ == label_text(numbers@.take(k as int)),
        decreases shown - k,
    {
        proof {
            assert(numbers@.take(k + 1).drop_last() =~= numbers@.take(k as int));
        }
        if k == 0 {
            text.append(":");
        } else {
            text.append("  :");
        }
        push_decimal(&mut text, numbers[k] as u64);
        proof {
            if k == 0 {
                assert(text@ =~= ":"@ + decimal(numbers@[0] as nat));
            }
        }
        k = k + 1;
    }
    text
}

/// The sidebar's port label and whether it shows: the distinct port numbers, ascending, at most
/// `MAX_LABEL_PORTS` of them; hidden when there are none. No observation shows nothing.
pub fn render_label(ports: Option<&[Port]>) -> (r: (String, bool))
    ensures
        ports is None ==> r.0@.len() == 0 && !r.1,
        ports matches Some(ps) ==> r.1 == (ps@.len() > 0) && exists|numbers: Seq<u16>|
            numbers_ascending(numbers) && (forall|n: u16| numbers.contains(n) <==> has_number(ps@, n))
                && r.0@ == label_text(numbers.take(
                if numbers.len() < MAX_LABEL_PORTS {
                    numbers.len() as int
                } else {
                    MAX_LABEL_PORTS as int
                },
            )),
{
    match ports {
        None => (String::new(), false),
        Some(ps) => {
            let numbers = port_numbers(ps);
            let text = label_for(numbers.as_slice());
            proof {
                if ps@.len() > 0 {
                    assert(has_number(ps@, ps@[0].port));
                    assert(numbers@.contains(ps@[0].port));
                }
                if numbers@.len() > 0 {
                    assert(numbers@.contains(numbers@[0]));
                }
            }
            let visible = numbers.len() > 0;
            (text, visible)
        },
    }
}


} // verus!
