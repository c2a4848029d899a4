//! Tests for the FileSync transfer: STAT planning, packet building,
//! request handling, and data chunking.

use buildkit_client::proto::{
    MODE_DIR, MODE_REG, MODE_TYPE_MASK, PACKET_DATA, PACKET_FIN, PACKET_REQ, PACKET_STAT,
};
use buildkit_client::session::filesync::{
    context_stats, data_packets, diff_copy_step, dockerfile_stats, fin_packet, lookup_file,
    plan_stats, stat_packets, ReqAction, TreeNode, DATA_CHUNK_SIZE,
};
use buildkit_client::proto::Packet;
use buildkit_client::BuildError;

fn file(name: &str, size: u64) -> TreeNode {
    TreeNode::File { name: name.to_string(), size, mode: 0o644 }
}

fn dir(name: &str, children: Vec<TreeNode>) -> TreeNode {
    TreeNode::Dir { name: name.to_string(), mode: 0o755, children }
}

fn sample_tree() -> Vec<TreeNode> {
    vec![
        file("Dockerfile", 12),
        dir(
            "app",
            vec![
                file("config.txt", 6),
                file("main.txt", 4),
                dir("subdir", vec![file("data.txt", 4)]),
            ],
        ),
    ]
}

#[test]
fn test_empty_directory_emits_only_terminator() {
    // An empty context: no stats, and the packet stream is just the
    // end-of-stats marker, after which the handler awaits requests.
    let stats = context_stats(vec![]);
    assert_eq!(stats.len(), 0);

    let packets = stat_packets(stats);
    assert_eq!(packets.len(), 1);
    assert_eq!(packets[0].ptype, PACKET_STAT);
    assert!(packets[0].stat.is_none());
    assert_eq!(packets[0].id, 0);
    assert!(packets[0].data.is_empty());
}

#[test]
fn test_stat_packet_ids_dense_ascending() {
    let stats = context_stats(sample_tree());
    let n = stats.len();
    let packets = stat_packets(stats);

    assert_eq!(packets.len(), n + 1);
    for (i, pkt) in packets.iter().take(n).enumerate() {
        assert_eq!(pkt.ptype, PACKET_STAT);
        assert_eq!(pkt.id as usize, i);
        assert!(pkt.stat.is_some());
    }
    assert!(packets[n].stat.is_none());
}

#[test]
fn test_stat_modes_and_sizes() {
    let stats = context_stats(sample_tree());

    for st in &stats {
        let type_bits = st.mode & MODE_TYPE_MASK;
        if type_bits == MODE_DIR {
            assert_eq!(st.size, 0);
        } else {
            assert_eq!(type_bits, MODE_REG);
        }
    }
    assert_eq!(stats[0].path, "Dockerfile");
    assert_eq!(stats[0].mode, 0o644 | MODE_REG);
    assert_eq!(stats[0].size, 12);
    assert_eq!(stats[1].path, "app");
    assert_eq!(stats[1].mode, 0o755 | MODE_DIR);
    assert_eq!(stats[1].size, 0);
}

#[test]
fn test_dockerfile_only_mode() {
    // A context with a Dockerfile and noise: only the Dockerfile is
    // announced, then the terminator.
    let nodes = vec![file("noise.txt", 9), file("Dockerfile", 12)];
    let stats = dockerfile_stats(&nodes).unwrap();

    assert_eq!(stats.len(), 1);
    assert_eq!(stats[0].path, "Dockerfile");
    assert_eq!(stats[0].mode & MODE_TYPE_MASK, MODE_REG);

    let packets = stat_packets(stats);
    assert_eq!(packets.len(), 2);
    assert_eq!(packets[0].id, 0);
    assert!(packets[0].stat.is_some());
    assert!(packets[1].stat.is_none());
}

#[test]
fn test_dockerfile_missing_fails() {
    // The daemon asked for the Dockerfile alone and there is none: the
    // call fails, and the transfer aborts with the failed status.
    let nodes = vec![file("noise.txt", 9)];
    let r = plan_stats(nodes, true);
    assert_eq!(r.unwrap_err(), BuildError::DockerfileMissing);
    assert_eq!(buildkit_client::session::grpc_tunnel::GRPC_FAILED, 2);
}

#[test]
fn test_req_for_directory_is_ignored() {
    // id 1 is the directory `app`: a REQ for it emits no data and the
    // handler carries on.
    let stats = context_stats(sample_tree());
    assert!(lookup_file(&stats, 1).is_none());

    let req = Packet { ptype: PACKET_REQ, stat: None, id: 1, data: vec![] };
    match diff_copy_step(&stats, &req) {
        ReqAction::Ignore => {}
        _ => panic!("a REQ for a directory id must be ignored"),
    }
}

#[test]
fn test_req_for_file_streams_it() {
    // id 2 is app/config.txt and id 3 is app/main.txt in the sample tree.
    let stats = context_stats(sample_tree());
    assert_eq!(stats[2].path, "app/config.txt");
    assert_eq!(stats[3].path, "app/main.txt");

    let req = Packet { ptype: PACKET_REQ, stat: None, id: 2, data: vec![] };
    match diff_copy_step(&stats, &req) {
        ReqAction::SendFile { id, path } => {
            assert_eq!(id, 2);
            assert_eq!(path, "app/config.txt");
        }
        _ => panic!("a REQ for a file id must start its data stream"),
    }

    let req = Packet { ptype: PACKET_REQ, stat: None, id: 3, data: vec![] };
    match diff_copy_step(&stats, &req) {
        ReqAction::SendFile { id, path } => {
            assert_eq!(id, 3);
            assert_eq!(path, "app/main.txt");
        }
        _ => panic!("a REQ for a file id must start its data stream"),
    }

    let fin = Packet { ptype: PACKET_FIN, stat: None, id: 0, data: vec![] };
    match diff_copy_step(&stats, &fin) {
        ReqAction::Finish => {}
        _ => panic!("FIN must end the exchange"),
    }

    let other = Packet { ptype: PACKET_STAT, stat: None, id: 0, data: vec![] };
    match diff_copy_step(&stats, &other) {
        ReqAction::Ignore => {}
        _ => panic!("any other kind must be ignored"),
    }
}

#[test]
fn test_data_packets_chunking() {
    // A small file: one DATA packet with the bytes, then the empty one.
    let content: Vec<u8> = b"file-content".to_vec();
    let packets = data_packets(7, &content);

    assert_eq!(packets.len(), 2);
    assert_eq!(packets[0].ptype, PACKET_DATA);
    assert_eq!(packets[0].id, 7);
    assert_eq!(packets[0].data, content);
    assert_eq!(packets[1].id, 7);
    assert!(packets[1].data.is_empty());

    // The packets' payloads put back together are the file.
    let rebuilt: Vec<u8> = packets.iter().flat_map(|p| p.data.iter().copied()).collect();
    assert_eq!(rebuilt, content);
}

#[test]
fn test_data_packets_chunking_large() {
    // A file over one chunk: two full-or-partial DATA packets, then the
    // empty one, payloads in file order.
    let content: Vec<u8> = (0..(DATA_CHUNK_SIZE + 10)).map(|i| (i % 251) as u8).collect();
    let packets = data_packets(2, &content);

    assert_eq!(packets.len(), 3);
    assert_eq!(packets[0].data.len(), DATA_CHUNK_SIZE);
    assert_eq!(packets[1].data.len(), 10);
    assert!(packets[2].data.is_empty());
    for p in &packets {
        assert_eq!(p.ptype, PACKET_DATA);
        assert_eq!(p.id, 2);
        assert!(p.stat.is_none());
    }

    let rebuilt: Vec<u8> = packets.iter().flat_map(|p| p.data.iter().copied()).collect();
    assert_eq!(rebuilt, content);
}

#[test]
fn test_data_packets_empty_file() {
    // An empty file: just the empty end-of-file DATA packet.
    let packets = data_packets(4, &vec![]);
    assert_eq!(packets.len(), 1);
    assert_eq!(packets[0].ptype, PACKET_DATA);
    assert_eq!(packets[0].id, 4);
    assert!(packets[0].data.is_empty());
}

#[test]
fn test_fin_packet_shape() {
    let fin = fin_packet();
    assert_eq!(fin.ptype, PACKET_FIN);
    assert!(fin.stat.is_none());
    assert_eq!(fin.id, 0);
    assert!(fin.data.is_empty());
}
