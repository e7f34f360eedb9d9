use cmux::ports::{
    attribute, label_for, port_numbers, remote_ports, render_label, Address, Listener, Port,
    PortError, Process, Provenance, RemoteContext, RemoteRow, RemoteTerminal,
};

const S1: u128 = 0xa1;
const S2: u128 = 0xa2;
const S3: u128 = 0xa3;

fn process(pid: u32) -> Process {
    Process { pid, identity: 7 }
}

fn listener(pid: u32, address: Address, port: u16) -> Listener {
    Listener {
        process: process(pid),
        address,
        port,
    }
}

fn local(surface_uuid: u128, address: Address, port: u16, pid: u32) -> Port {
    Port {
        surface_uuid,
        address,
        port,
        pid,
        provenance: Provenance::Local,
        forwarded_local_port: None,
    }
}

#[test]
fn listeners_attribute_to_their_terminal_once_in_port_order() {
    let terminals = [(S1, 10), (S2, 20), (S3, 20)];
    let processes = [
        (process(1), Some(10)),
        (process(2), Some(20)),
        (process(3), None),
        (process(4), Some(10)),
    ];
    let v4 = Address::V4(0x0102_0304);
    let v6 = Address::V6(1);
    let listeners = [
        listener(1, v4, 8080),
        listener(2, v4, 9000),
        listener(4, v6, 3000),
        listener(1, v4, 8080),
        listener(1, v6, 8080),
        listener(9, v4, 1),
    ];
    let ports = attribute(&terminals, &processes, &listeners).unwrap();
    assert_eq!(
        ports,
        vec![
            local(S1, v6, 3000, 4),
            local(S1, v4, 8080, 1),
            local(S1, v6, 8080, 1),
        ]
    );
}

#[test]
fn attribution_is_bounded() {
    let terminals = [(S1, 10)];
    let processes = [(process(1), Some(10))];
    let owned: Vec<Listener> = (0..256u16)
        .map(|i| listener(1, Address::V4(0), 1000 + i))
        .collect();
    assert_eq!(attribute(&terminals, &processes, &owned).unwrap().len(), 256);
    let mut one_more = owned.clone();
    one_more.push(listener(99, Address::V4(0), 1));
    assert_eq!(
        attribute(&terminals, &processes, &one_more),
        Err(PortError::LimitExceeded)
    );
    assert_eq!(
        PortError::LimitExceeded.message(),
        "workspace listener limit exceeded"
    );
}

#[test]
fn label_shows_eight_distinct_ports_ascending() {
    assert_eq!(render_label(None), (String::new(), false));
    assert_eq!(render_label(Some(&[])), (String::new(), false));
    let numbers = [8080u16, 22, 8080, 3000, 1, 2, 3, 4, 5, 6, 7];
    let ports: Vec<Port> = numbers
        .iter()
        .map(|n| local(S1, Address::V4(0), *n, 1))
        .collect();
    assert_eq!(port_numbers(&ports), vec![1, 2, 3, 4, 5, 6, 7, 22, 3000, 8080]);
    assert_eq!(
        render_label(Some(&ports)),
        (":1  :2  :3  :4  :5  :6  :7  :22".to_owned(), true)
    );
    assert_eq!(label_for(&[443]), ":443");
    assert_eq!(label_for(&[22, 65535]), ":22  :65535");
}

fn row(port: u16, pid: u32) -> RemoteRow {
    RemoteRow { address: Address::V4(0x7f00_0001), port, pid }
}

fn terminal(surface_uuid: u128, eof: bool, stream: &str, observed: &str, rows: Option<Vec<RemoteRow>>) -> RemoteTerminal {
    RemoteTerminal {
        surface_uuid,
        context: Some(RemoteContext {
            eof_received: eof,
            stream: Some(stream.to_string()),
            observation: Some((observed.to_string(), rows)),
        }),
    }
}

fn remote(surface_uuid: u128, port: u16, pid: u32, forwarded: Option<u16>) -> Port {
    Port {
        surface_uuid,
        address: Address::V4(0x7f00_0001),
        port,
        pid,
        provenance: Provenance::Remote,
        forwarded_local_port: forwarded,
    }
}

/// Remote observations of current streams are attributed once each, in port order, with their
/// forwarded local port; anything stale or missing leaves the workspace unknown.
#[test]
fn remote_observations_need_current_streams() {
    let forwarded = vec![((Address::V4(0x7f00_0001), 8080), 18080)];
    let terminals = vec![
        terminal(S2, false, "s2", "s2", Some(vec![row(8080, 9), row(3000, 9), row(8080, 9)])),
        terminal(S1, true, "old", "other", None),
        terminal(S1, false, "s1", "s1", Some(vec![row(3000, 4)])),
    ];
    assert_eq!(
        remote_ports(true, &terminals, &forwarded),
        Some(vec![remote(S1, 3000, 4, None), remote(S2, 3000, 9, None), remote(S2, 8080, 9, Some(18080))])
    );
    assert_eq!(remote_ports(false, &terminals, &forwarded), None);
    let stale = vec![terminal(S1, false, "s1", "s0", Some(vec![row(1, 1)]))];
    assert_eq!(remote_ports(true, &stale, &forwarded), None);
    let failed = vec![terminal(S1, false, "s1", "s1", None)];
    assert_eq!(remote_ports(true, &failed, &forwarded), None);
    let orphan = vec![RemoteTerminal { surface_uuid: S3, context: None }];
    assert_eq!(remote_ports(true, &orphan, &forwarded), None);
    let many: Vec<RemoteRow> = (0..257u16).map(|n| row(n, 1)).collect();
    assert_eq!(remote_ports(true, &[terminal(S1, false, "s", "s", Some(many))], &forwarded), None);
    let enough: Vec<RemoteRow> = (0..256u16).map(|n| row(n, 1)).collect();
    assert_eq!(
        remote_ports(true, &[terminal(S1, false, "s", "s", Some(enough))], &forwarded).map(|p| p.len()),
        Some(256)
    );
}
