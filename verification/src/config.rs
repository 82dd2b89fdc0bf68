//! The node's configuration and the peer list it names.

use vstd::prelude::*;
use crate::text::{
    chars_of, concat, parse_u16, parse_u16_chars, split_chars, split_on, string_from_chars, trim,
    trim_chars,
};
use crate::types::{NodeAddr, NodeAddrView};

verus! {

/// The settings a node starts with.
#[derive(Debug, Clone)]
pub struct Config {
    /// this node's unique ID e.g. "node-a"
    pub node_id: String,
    /// this node's index in the cluster e.g. 0, 1, 2
    pub node_index: usize,
    /// total number of nodes in the cluster
    pub num_nodes: usize,
    /// port this node listens on
    pub port: u16,
    /// comma separated peer addresses e.g. "node-b:localhost:7002,node-c:localhost:7003"
    pub peers_raw: String,
    /// where to store WAL and snapshot files
    pub data_dir: String,
    /// how often to gossip, in seconds
    pub gossip_interval: u64,
    pub metrics_port: u16,
}

/// The peer that one comma-separated piece names: after trimming white space,
/// exactly three `:`-separated parts, id, host and a valid port; nothing otherwise.
pub open spec fn peer_of(piece: Seq<char>) -> Seq<NodeAddrView> {
    let parts = split_on(trim(piece), ':');
    if parts.len() == 3 && parse_u16(parts[2]) is Some {
        seq![NodeAddrView { id: parts[0], host: parts[1], port: parse_u16(parts[2])->0 }]
    } else {
        Seq::empty()
    }
}

/// The peers that a list of pieces names, in order.
pub open spec fn peers_of(pieces: Seq<Seq<char>>) -> Seq<NodeAddrView>
    decreases pieces.len(),
{
    if pieces.len() == 0 {
        Seq::empty()
    } else {
        peers_of(pieces.drop_last()) + peer_of(pieces.last())
    }
}

/// The peers that `id:host:port,id:host:port` text names; pieces that do not
/// have that form are skipped.
pub open spec fn parse_peers(raw: Seq<char>) -> Seq<NodeAddrView> {
    if raw.len() == 0 {
        Seq::empty()
    } else {
        peers_of(split_on(raw, ','))
    }
}

/// The standard library's owned path type, carried through opaquely.
#[verifier::external_type_specification]
#[verifier::external_body]
pub struct ExPathBuf(std::path::PathBuf);

/// The path that joining the file name `file` onto the directory `dir` gives.
pub uninterp spec fn joined_path(dir: Seq<char>, file: Seq<char>) -> std::path::PathBuf;

/// Joins a directory and a file name into a path.
///
/// Calls `PathBuf::from` and `Path::join`, which compute the path from the two
/// strings alone, with no access to the file system or the environment; the
/// contract names that result. What the path looks like (the separator the
/// target platform uses, an absolute file name replacing the directory) is
/// left unstated.
#[verifier::external_body]
fn join_path(dir: &str, file: &str) -> (p: std::path::PathBuf)
    ensures
        p == joined_path(dir@, file@),
{
    std::path::PathBuf::from(dir).join(file)
}

impl Config {
    /// Parse peer addresses from the "id:host:port,id:host:port" format.
    pub fn peers(&self) -> (r: Vec<NodeAddr>)
        ensures
            r@.map_values(|a: NodeAddr| a@) == parse_peers(self.peers_raw@),
    {
        let raw = chars_of(self.peers_raw.as_str());
        let mut r: Vec<NodeAddr> = Vec::new();
        if raw.len() == 0 {
            assert(r@.map_values(|a: NodeAddr| a@) =~= Seq::<NodeAddrView>::empty());
            return r;
        }
        let pieces = split_chars(raw.as_slice(), ',');
        let ghost sp = split_on(raw@, ',');
        let mut i: usize = 0;
        assert(sp.take(0) =~= Seq::<Seq<char>>::empty());
        assert(r@.map_values(|a: NodeAddr| a@) =~= Seq::<NodeAddrView>::empty());
        while i < pieces.len()
            invariant
                i <= pieces.len(),
                sp == split_on(raw@, ','),
                pieces@.len() == sp.len(),
                forall|k: int| 0 <= k < pieces@.len() ==> #[trigger] pieces@[k]@ == sp[k],
                r@.map_values(|a: NodeAddr| a@) == peers_of(sp.take(i as int)),
            decreases pieces.len() - i,
        {
            assert(sp.take(i + 1).drop_last() =~= sp.take(i as int));
            assert(sp.take(i + 1).last() == pieces@[i as int]@);
            let trimmed = trim_chars(pieces[i].as_slice());
            let parts = split_chars(trimmed.as_slice(), ':');
            let ghost before = r@;
            if parts.len() == 3 {
                match parse_u16_chars(parts[2].as_slice()) {
                    Some(port) => {
                        let id = string_from_chars(parts[0].as_slice());
                        let host = string_from_chars(parts[1].as_slice());
                        r.push(NodeAddr { id, host, port });
                        assert(r@.map_values(|a: NodeAddr| a@) =~= before.map_values(
                            |a: NodeAddr| a@,
                        ) + peer_of(pieces@[i as int]@));
                    },
                    None => {
                        assert(peer_of(pieces@[i as int]@) =~= Seq::<NodeAddrView>::empty());
                        assert(r@.map_values(|a: NodeAddr| a@) =~= before.map_values(
                            |a: NodeAddr| a@,
                        ) + peer_of(pieces@[i as int]@));
                    },
                }
            } else {
                assert(peer_of(pieces@[i as int]@) =~= Seq::<NodeAddrView>::empty());
                assert(r@.map_values(|a: NodeAddr| a@) =~= before.map_values(|a: NodeAddr| a@)
                    + peer_of(pieces@[i as int]@));
            }
            i = i + 1;
        }
        assert(sp.take(pieces.len() as int) =~= sp);
        r
    }

    /// The file name of this node's write-ahead log: `<node_id>.wal`.
    pub fn wal_file_name(&self) -> (name: String)
        ensures
            name@ == self.node_id@ + ".wal"@,
    {
        concat(self.node_id.as_str(), ".wal")
    }

    /// The file name of this node's snapshot: `<node_id>.snapshot`.
    pub fn snapshot_file_name(&self) -> (name: String)
        ensures
            name@ == self.node_id@ + ".snapshot"@,
    {
        concat(self.node_id.as_str(), ".snapshot")
    }

    /// The path of the write-ahead log: the data directory joined with
    /// `<node_id>.wal`.
    pub fn wal_path(&self) -> (p: std::path::PathBuf)
        ensures
            p == joined_path(self.data_dir@, self.node_id@ + ".wal"@),
    {
        let name = self.wal_file_name();
        join_path(self.data_dir.as_str(), name.as_str())
    }

    /// The path of the snapshot: the data directory joined with
    /// `<node_id>.snapshot`.
    pub fn snapshot_path(&self) -> (p: std::path::PathBuf)
        ensures
            p == joined_path(self.data_dir@, self.node_id@ + ".snapshot"@),
    {
        let name = self.snapshot_file_name();
        join_path(self.data_dir.as_str(), name.as_str())
    }
}

} // verus!
