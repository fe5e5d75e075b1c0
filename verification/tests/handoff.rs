use raddex::layer4::handoff::{
    await_manifest, check_manifest, chunk_range, chunks_for, descriptors_for, flow_descriptor,
    inherit, listener_descriptor, manifest_for, manifest_path_for, part_path_for, status_path_for,
    status_text, Adopted, Descriptor, ManifestStep, UdpHandoffFlow, UdpHandoffManifest,
    MAX_HANDOFF_CHUNKS,
};
use raddex::layer4::hash::{handoff_key, mixed_hash, stable_hash};
use raddex::layer4::udp::{Flow, FlowTable};
use raddex::net::SocketAddr;
use raddex::time::Duration;

fn client(i: u16) -> SocketAddr {
    SocketAddr::v4(192, 0, 2, 1, 1000 + i)
}

fn server() -> SocketAddr {
    SocketAddr::v4(127, 0, 0, 1, 53)
}

fn table(n: u16) -> FlowTable {
    let mut t = FlowTable::new();
    for i in 0..n {
        t.put(Flow {
            client: client(i),
            upstream: server(),
            last_active: 5,
            c2u_packets: u64::from(i),
        });
    }
    t
}

fn manifest(flows: u16, listeners: usize) -> UdpHandoffManifest {
    manifest_for(&table(flows), listeners).unwrap_or_else(|e| panic!("{e}"))
}

#[test]
fn chunks_hold_all_flows() {
    assert_eq!((chunks_for(0), chunks_for(1), chunks_for(30)), (1, 1, 1));
    assert_eq!((chunks_for(31), chunks_for(61)), (2, 3));
    assert_eq!(chunk_range(0, 31), (0, 30));
    assert_eq!(chunk_range(1, 31), (30, 31));
    assert_eq!(chunk_range(0, 0), (0, 0));
}

#[test]
fn a_manifest_lists_the_flows() {
    let m = manifest(31, 2);
    assert_eq!((m.chunks, m.listeners, m.flows.len()), (2, 2, 31));
    assert_eq!(
        m.flows[3],
        UdpHandoffFlow {
            client: client(3),
            upstream: server(),
            client_packets: 3
        }
    );
    assert_eq!(check_manifest(&m, 2), Ok(()));
    assert_eq!(
        manifest_for(&table(0), 0).err(),
        Some("UDP listener sockets are unavailable".to_string())
    );
}

#[test]
fn bad_manifests_are_refused() {
    let mut m = manifest(1, 2);
    m.chunks = 0;
    assert_eq!(
        check_manifest(&m, 2),
        Err("invalid UDP handoff chunk count 0".to_string())
    );
    m.chunks = MAX_HANDOFF_CHUNKS + 1;
    assert_eq!(
        check_manifest(&m, 2),
        Err("invalid UDP handoff chunk count 1000001".to_string())
    );
    m.chunks = 2;
    assert_eq!(
        check_manifest(&m, 2),
        Err("UDP handoff chunk count 2 does not match 1 flows".to_string())
    );
    m.chunks = 1;
    assert_eq!(
        check_manifest(&m, 3),
        Err("UDP handoff carries 2 listener descriptors but this process runs 3 receive loops; restart instead of upgrading when the worker-thread count changes".to_string())
    );
    // A manifest of an older process does not say how many listeners it sends.
    m.listeners = 0;
    assert_eq!(check_manifest(&m, 1), Ok(()));
}

#[test]
fn what_is_sent_is_adopted() {
    let m = manifest(31, 2);
    let listener_fds = vec![3, 4];
    let flow_fds: Vec<i32> = (10..41).collect();
    let mut adopted = Adopted::new();
    for chunk in 0..m.chunks {
        let ds = descriptors_for(&m, chunk, &listener_fds, &flow_fds);
        assert_eq!(adopted.adopt_chunk(&m, chunk, 2, &ds), Ok(()));
    }
    assert_eq!(adopted.finish(2), Ok(()));
    assert_eq!((adopted.listeners, adopted.flows), (listener_fds, flow_fds));
}

#[test]
fn incomplete_chunks_adopt_nothing() {
    let m = manifest(1, 1);
    let listener = |name: &str| Descriptor {
        name: name.to_string(),
        fd: 3,
        peer: SocketAddr::v4(0, 0, 0, 0, 0),
    };
    let flow = |peer| Descriptor {
        name: "flow-0".to_string(),
        fd: 4,
        peer,
    };
    let mut adopted = Adopted::new();
    let mut adopt = |ds: Vec<Descriptor>| adopted.adopt_chunk(&m, 0, 1, &ds);
    assert_eq!(
        adopt(vec![]),
        Err("UDP handoff is missing listener descriptor 0".to_string())
    );
    assert_eq!(
        adopt(vec![listener("listener-0")]),
        Err("UDP handoff is missing flow fd 0".to_string())
    );
    assert_eq!(
        adopt(vec![listener("listener-0"), flow(client(0))]),
        Err("UDP handoff flow 0 points to 192.0.2.1:1000, expected 127.0.0.1:53".to_string())
    );
    assert!(adopted.listeners.is_empty() && adopted.flows.is_empty());
    assert_eq!(
        adopted.finish(1),
        Err("UDP handoff delivered 0 of 1 listener descriptors".to_string())
    );
    let mut old = manifest(0, 1);
    old.listeners = 0;
    assert_eq!(
        adopted.adopt_chunk(&old, 0, 1, &vec![]),
        Err("UDP handoff is missing the listener fd".to_string())
    );
    assert_eq!(adopted.adopt_chunk(&old, 0, 1, &vec![listener("listener")]), Ok(()));
    assert_eq!(adopted.listeners, vec![3]);
}

#[test]
fn inherited_flows_are_the_ones_handed_over() {
    let before = table(5);
    let after = inherit(&manifest(5, 1), 99);
    assert_eq!(after.flows.len(), 5);
    for (a, b) in after.flows.iter().zip(before.flows.iter()) {
        assert_eq!(
            (a.client, a.upstream, a.c2u_packets, a.last_active),
            (b.client, b.upstream, b.c2u_packets, 99)
        );
    }
}

#[test]
fn names_of_files_and_descriptors() {
    // The key is the FNV-1a hash of the listener, in hexadecimal.
    assert_eq!(handoff_key(""), "cbf29ce484222325");
    assert_eq!(handoff_key("a"), "af63dc4c8601ec8c");
    assert_eq!(stable_hash(b"a"), 0xaf63_dc4c_8601_ec8c);
    assert_ne!(mixed_hash(b"a"), stable_hash(b"a"));
    assert_eq!(status_path_for("/run/s", "a"), "/run/s.udp.af63dc4c8601ec8c.status");
    assert_eq!(manifest_path_for("/run/s", "a"), "/run/s.udp.af63dc4c8601ec8c.manifest");
    assert_eq!(part_path_for("/run/s", "a", 12), "/run/s.udp.af63dc4c8601ec8c.part.12");
    assert_eq!((listener_descriptor(2).as_str(), flow_descriptor(30).as_str()), ("listener-2", "flow-30"));
    assert_eq!((status_text(None).as_str(), status_text(Some("x")).as_str()), ("ok", "error: x"));
}

#[test]
fn a_manifest_is_awaited_for_a_while() {
    use_step("p", Some(16_777_216), 0, ManifestStep::Read);
    let large = ManifestStep::Fail("UDP handoff manifest exceeds 16 MiB".to_string());
    use_step("p", Some(16_777_217), 0, large);
    use_step("p", None, 19_999_999_999, ManifestStep::Pause);
    let late = ManifestStep::Fail("UDP handoff manifest p did not arrive".to_string());
    use_step("p", None, 20_000_000_000, late);
}

fn use_step(path: &str, size: Option<usize>, nanos: u64, wanted: ManifestStep) {
    assert_eq!(await_manifest(path, size, Duration { nanos }), wanted);
}
