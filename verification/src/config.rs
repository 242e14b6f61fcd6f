//! What a node is started with: its port and the list of all ports of
//! the cluster, one to a line.

use crate::text::{parse_number, read_number, seek, split};
use vstd::prelude::*;
use vstd::string::StringSliceAdditionalSpecFns;

verus! {

pub const NEWLINE: u8 = 0x0a;

pub const CARRIAGE_RETURN: u8 = 0x0d;

/// Why a node cannot start.
#[derive(Debug, Clone, Copy, PartialEq, Eq, Structural)]
pub enum StartupError {
    /// There is not exactly one argument after the program's name.
    WrongArgumentCount,
    /// The argument is no port number.
    InvalidPort,
    /// A line of the list is no port number.
    InvalidServerPort,
    /// The node's own port is not in the list.
    PortNotListed,
}

/// The line without the carriage return at its end, if it has one.
pub open spec fn without_return(line: Seq<u8>) -> Seq<u8> {
    if line.len() > 0 && line.last() == CARRIAGE_RETURN {
        line.drop_last()
    } else {
        line
    }
}

/// The lines of a text. A line ends with a newline, or with a carriage
/// return and a newline; the last line need not end at all, and is then
/// taken as it stands.
pub open spec fn lines(text: Seq<u8>) -> Seq<Seq<u8>> {
    let pieces = split(text, NEWLINE);
    let ended = pieces.drop_last().map_values(|piece: Seq<u8>| without_return(piece));
    if pieces.last().len() == 0 {
        ended
    } else {
        ended.push(pieces.last())
    }
}

/// Whether every line is a port number.
pub open spec fn all_ports(lines: Seq<Seq<u8>>) -> bool {
    forall|i: int| 0 <= i < lines.len() ==> parse_number(#[trigger] lines[i]) is Some
}

/// The port numbers that the lines spell.
pub open spec fn ports_of(lines: Seq<Seq<u8>>) -> Seq<u32> {
    lines.map_values(|line: Seq<u8>| parse_number(line)->0)
}

/// The ports that a list names, where each of its lines is a port.
pub open spec fn parse_servers(text: Seq<u8>) -> Option<Seq<u32>> {
    if all_ports(lines(text)) {
        Some(ports_of(lines(text)))
    } else {
        None
    }
}

/// The port that the arguments of the program select: the one argument
/// after the program's name, where it is a number.
pub open spec fn parse_arguments(args: Seq<&str>) -> Result<u32, StartupError> {
    if args.len() != 2 {
        Err(StartupError::WrongArgumentCount)
    } else {
        match parse_number(args[1].spec_bytes()) {
            Some(port) => Ok(port),
            None => Err(StartupError::InvalidPort),
        }
    }
}

/// The ports of the cluster for a node at `port`: those that the list
/// names, where the node's own is among them.
pub open spec fn parse_cluster(port: u32, text: Seq<u8>) -> Result<Seq<u32>, StartupError> {
    match parse_servers(text) {
        None => Err(StartupError::InvalidServerPort),
        Some(ports) => if ports.contains(port) {
            Ok(ports)
        } else {
            Err(StartupError::PortNotListed)
        },
    }
}

/// The peers of the node at `port`: the other ports of the list, in its
/// order, as identifiers.
pub open spec fn peers_of(port: u32, ports: Seq<u32>) -> Seq<u64> {
    ports.filter(|other: u32| other != port).map_values(|other: u32| other as u64)
}

/// How many nodes of `servers`, itself among them, a node waits for
/// before it starts.
pub open spec fn quorum_of(servers: nat) -> nat {
    (servers + 1) / 2
}

/// The port on which the peer `peer` listens for the others: twice its
/// identifier, which is the port that it was started with.
pub open spec fn peer_port_of(peer: u64) -> Option<u32> {
    if peer * 2 <= u32::MAX {
        Some((peer * 2) as u32)
    } else {
        None
    }
}

/// Reads the node's port from the argument that selects it.
pub fn read_port(argument: &str) -> (port: Result<u32, StartupError>)
    ensures
        port == match parse_number(argument.spec_bytes()) {
            Some(number) => Ok::<u32, StartupError>(number),
            None => Err(StartupError::InvalidPort),
        },
{
    let bytes: &[u8] = argument.as_bytes();
    assert(bytes@.subrange(0, bytes@.len() as int) =~= bytes@);
    match read_number(bytes, 0, bytes.len()) {
        Some(number) => Ok(number),
        None => Err(StartupError::InvalidPort),
    }
}

/// Reads the node's port from the arguments of the program, its name
/// first.
pub fn read_arguments(args: &Vec<&str>) -> (port: Result<u32, StartupError>)
    ensures
        port == parse_arguments(args@),
{
    if args.len() != 2 {
        Err(StartupError::WrongArgumentCount)
    } else {
        read_port(args[1])
    }
}

/// Reads the ports that a list names.
pub fn read_servers(text: &[u8]) -> (ports: Option<Vec<u32>>)
    ensures
        match ports {
            Some(ports) => parse_servers(text@) == Some(ports@),
            None => parse_servers(text@) is None,
        },
{
    let ghost pieces = split(text@, NEWLINE);
    let ghost mut done: Seq<Seq<u8>> = Seq::empty();
    let mut ports: Vec<u32> = Vec::new();
    let mut at: usize = 0;
    assert(text@.subrange(0, text@.len() as int) =~= text@);
    loop
        invariant
            at <= text@.len(),
            pieces == split(text@, NEWLINE),
            pieces == done + split(text@.subrange(at as int, text@.len() as int), NEWLINE),
            ports@ == ports_of(done.map_values(|piece: Seq<u8>| without_return(piece))),
            all_ports(done.map_values(|piece: Seq<u8>| without_return(piece))),
        decreases text@.len() - at,
    {
        let end: usize = seek(text, NEWLINE, at, text.len());
        let ghost rest = text@.subrange(at as int, text@.len() as int);
        let ghost piece = text@.subrange(at as int, end as int);
        let ghost ended = done.map_values(|piece: Seq<u8>| without_return(piece));
        if end == text.len() {
            proof {
                assert(pieces.drop_last() =~= done);
            }
            if at == end {
                return Some(ports);
            }
            let last: Option<u32> = read_number(text, at, end);
            proof {
                let all = ended.push(piece);
                if last is None {
                    assert(parse_number(all[all.len() - 1]) is None);
                }
            }
            return match last {
                Some(port) => {
                    ports.push(port);
                    Some(ports)
                },
                None => None,
            };
        }
        let line_end: usize = if end > at && text[end - 1] == CARRIAGE_RETURN {
            (end - 1) as usize
        } else {
            end
        };
        let port: Option<u32> = read_number(text, at, line_end);
        proof {
            assert(rest.subrange(0, end - at) =~= piece);
            assert(rest.subrange(end - at + 1, rest.len() as int) =~= text@.subrange(
                end + 1,
                text@.len() as int,
            ));
            assert(text@.subrange(at as int, line_end as int) =~= without_return(piece));
            let longer = done.push(piece).map_values(|piece: Seq<u8>| without_return(piece));
            if port is Some {
                assert forall|i: int| 0 <= i < longer.len() implies parse_number(
                    #[trigger] longer[i],
                ) is Some by {
                    if i < ended.len() {
                        assert(longer[i] == ended[i]);
                    }
                }
            } else {
                lemma_split_nonempty(text@.subrange(end + 1, text@.len() as int), NEWLINE);
                let all = lines(text@);
                assert(all[done.len() as int] == without_return(piece));
            }
            done = done.push(piece);
        }
        match port {
            Some(port) => {
                ports.push(port);
            },
            None => {
                return None;
            },
        }
        at = end + 1;
    }
}

/// Reads the ports of the cluster for the node at `port`.
pub fn read_cluster(port: u32, text: &str) -> (ports: Result<Vec<u32>, StartupError>)
    ensures
        match ports {
            Ok(ports) => parse_cluster(port, text.spec_bytes()) == Ok::<Seq<u32>, StartupError>(
                ports@,
            ),
            Err(error) => parse_cluster(port, text.spec_bytes()) == Err::<Seq<u32>, StartupError>(
                error,
            ),
        },
{
    match read_servers(text.as_bytes()) {
        None => Err(StartupError::InvalidServerPort),
        Some(ports) => {
            let mut i: usize = 0;
            while i < ports.len()
                invariant
                    i <= ports@.len(),
                    parse_servers(text.spec_bytes()) == Some(ports@),
                    forall|j: int| 0 <= j < i ==> ports@[j] != port,
                decreases ports@.len() - i,
            {
                if ports[i] == port {
                    return Ok(ports);
                }
                i = i + 1;
            }
            Err(StartupError::PortNotListed)
        },
    }
}

/// A split text has at least one piece.
pub proof fn lemma_split_nonempty(text: Seq<u8>, mark: u8)
    ensures
        split(text, mark).len() > 0,
{
}

/// Computes [`quorum_of`] without leaving the range of `usize`.
pub fn quorum(servers: usize) -> (needed: usize)
    ensures
        needed == quorum_of(servers as nat),
{
    let half: usize = servers / 2;
    let odd: usize = servers % 2;
    half + odd
}

/// Computes [`peer_port_of`].
pub fn peer_port(peer: u64) -> (listen: Option<u32>)
    ensures
        listen == peer_port_of(peer),
{
    if peer <= 0x7fff_ffff {
        Some((peer * 2) as u32)
    } else {
        None
    }
}

/// Picks the peers of the node at `port` out of the cluster's ports.
pub fn peers(port: u32, ports: &Vec<u32>) -> (others: Vec<u64>)
    ensures
        others@ == peers_of(port, ports@),
{
    let mut others: Vec<u64> = Vec::new();
    let mut i: usize = 0;
    while i < ports.len()
        invariant
            i <= ports@.len(),
            others@ == peers_of(port, ports@.take(i as int)),
        decreases ports@.len() - i,
    {
        proof {
            let longer = ports@.take(i + 1);
            assert(longer.drop_last() =~= ports@.take(i as int));
            reveal(Seq::filter);
        }
        if ports[i] != port {
            others.push(ports[i] as u64);
        }
        i = i + 1;
    }
    assert(ports@.take(ports@.len() as int) =~= ports@);
    others
}

} // verus!
