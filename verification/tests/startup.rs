use raft::config::{
    peer_port, peers, quorum, read_arguments, read_cluster, read_port, read_servers, StartupError,
};
use raft::raft_node::{ELECTION_TIMEOUT_SECS, HEARTBEAT_PERIOD_SECS};
use raft::transport::INBOX_CAPACITY;

fn lines_parsed(text: &str) -> Option<Vec<u32>> {
    text.lines().map(|line| line.parse::<u32>().ok()).collect()
}

#[test]
fn port_is_a_number() {
    assert_eq!(read_port("8080"), Ok(8080));
    assert_eq!(read_port("+8080"), Ok(8080));
    assert_eq!(read_port("0"), Ok(0));
    assert_eq!(read_port(""), Err(StartupError::InvalidPort));
    assert_eq!(read_port("port"), Err(StartupError::InvalidPort));
    assert_eq!(read_port("80 80"), Err(StartupError::InvalidPort));
    assert_eq!(read_port("-1"), Err(StartupError::InvalidPort));
    assert_eq!(read_port("4294967296"), Err(StartupError::InvalidPort));
}

#[test]
fn list_is_read_line_by_line_as_the_standard_library_does() {
    let texts = [
        "",
        "8000",
        "8000\n",
        "8000\n8001\n8002",
        "8000\n8001\n8002\n",
        "8000\r\n8001\r\n",
        "8000\r\n8001\r",
        "8000\r",
        "8000\r\r\n",
        "\n",
        "\n\n",
        "8000\n\n8001",
        "8000\n8001\n\n",
        "8000\nabc\n8002",
        "8000 \n8001",
        " 8000",
        "8000\n+8001\n",
        "8000\n-8001\n",
        "4294967295\n4294967296\n",
        "\r\n",
        "1\n2\n3\n4\n5\n6\n7",
    ];
    for text in texts {
        assert_eq!(read_servers(text.as_bytes()), lines_parsed(text), "text {:?}", text);
    }
}

#[test]
fn cluster_must_list_only_ports_and_the_nodes_own_among_them() {
    assert_eq!(read_cluster(8001, "8000\n8001\n8002\n"), Ok(vec![8000, 8001, 8002]));
    assert_eq!(read_cluster(8001, "8001"), Ok(vec![8001]));
    assert_eq!(read_cluster(8003, "8000\n8001\n8002\n"), Err(StartupError::PortNotListed));
    assert_eq!(read_cluster(8003, ""), Err(StartupError::PortNotListed));
    assert_eq!(read_cluster(8000, "8000\nx\n"), Err(StartupError::InvalidServerPort));
    assert_eq!(read_cluster(8005, "8000\n\n8005\n"), Err(StartupError::InvalidServerPort));
}

#[test]
fn peers_are_the_other_ports() {
    assert_eq!(peers(8001, &vec![8000, 8001, 8002]), vec![8000u64, 8002]);
    assert_eq!(peers(8001, &vec![8001]), Vec::<u64>::new());
    assert_eq!(peers(8001, &vec![8001, 8000, 8001, 8000]), vec![8000u64, 8000]);
    assert_eq!(peers(1, &vec![]), Vec::<u64>::new());
    assert_eq!(peers(9, &vec![4294967295, 0]), vec![4294967295u64, 0]);
}

#[test]
fn quorum_is_half_of_the_servers_rounded_up() {
    let expected = [0usize, 1, 1, 2, 2, 3, 3];
    for (servers, needed) in expected.iter().enumerate() {
        assert_eq!(quorum(servers), *needed);
    }
    assert_eq!(quorum(usize::MAX), usize::MAX / 2 + 1);
}

#[test]
fn peers_are_reached_at_twice_the_port() {
    assert_eq!(peer_port(8000), Some(16000));
    assert_eq!(peer_port(0), Some(0));
    assert_eq!(peer_port(2147483647), Some(4294967294));
    assert_eq!(peer_port(2147483648), None);
    assert_eq!(peer_port(4294967295), None);
    assert_eq!(peer_port(u64::MAX), None);
}

#[test]
fn heartbeats_come_faster_than_elections() {
    assert_eq!(ELECTION_TIMEOUT_SECS, 5);
    assert_eq!(HEARTBEAT_PERIOD_SECS, 1);
    assert_eq!(INBOX_CAPACITY, 100);
}

#[test]
fn arguments_are_the_programs_name_and_a_port() {
    assert_eq!(read_arguments(&vec!["raft", "8001"]), Ok(8001));
    assert_eq!(read_arguments(&vec!["raft"]), Err(StartupError::WrongArgumentCount));
    assert_eq!(read_arguments(&vec![]), Err(StartupError::WrongArgumentCount));
    assert_eq!(read_arguments(&vec!["raft", "8001", "8002"]), Err(StartupError::WrongArgumentCount));
    assert_eq!(read_arguments(&vec!["raft", "eighty"]), Err(StartupError::InvalidPort));
    assert_eq!(read_arguments(&vec!["8001", "x"]), Err(StartupError::InvalidPort));
}
