//! The FileSync side of a session: the directory-tree model, the ordered
//! STAT enumeration, and the REQ/DATA/FIN transfer rules.
//!
//! The daemon's validator requires STAT packets in depth-first order with
//! each directory's entries sorted ascending by name; ids are assigned
//! densely in emission order.

use crate::proto::{plain_stat, Packet, PacketModel, Stat, StatModel, MODE_DIR, MODE_REG,
    MODE_TYPE_MASK, PACKET_DATA, PACKET_FIN, PACKET_REQ, PACKET_STAT};
use crate::text::lex_le;
use crate::BuildError;
use vstd::prelude::*;

verus! {

/// Largest payload of one DATA packet, in bytes: 32 KiB.
pub const DATA_CHUNK_SIZE: usize = 32768;

/// One entry of a directory tree, as handed to the enumeration: a file
/// with its byte length and permission bits, or a directory with its
/// entries in any order.
pub enum TreeNode {
    File { name: String, size: u64, mode: u32 },
    Dir { name: String, mode: u32, children: Vec<TreeNode> },
}

/// The name of a tree node.
pub open spec fn node_name(n: TreeNode) -> Seq<char> {
    match n {
        TreeNode::File { name, .. } => name@,
        TreeNode::Dir { name, .. } => name@,
    }
}

/// How many entries a node contributes: itself and everything below it.
pub open spec fn node_count(n: TreeNode) -> nat
    decreases n,
{
    match n {
        TreeNode::File { .. } => 1,
        TreeNode::Dir { children, .. } => 1 + seq_count(children@),
    }
}

/// Total entry count of a forest.
pub open spec fn seq_count(s: Seq<TreeNode>) -> nat
    decreases s,
{
    if s.len() == 0 {
        0
    } else {
        node_count(s[0]) + seq_count(s.skip(1))
    }
}

/// Insert `x` into a name-sorted forest, after any entry whose name is
/// less than or equal to its own.
pub open spec fn insert_sorted(x: TreeNode, s: Seq<TreeNode>) -> Seq<TreeNode>
    decreases s.len(),
{
    if s.len() == 0 {
        seq![x]
    } else if lex_le(node_name(s[0]), node_name(x)) {
        seq![s[0]] + insert_sorted(x, s.skip(1))
    } else {
        seq![x] + s
    }
}

/// A forest sorted ascending by name, by repeated insertion.
pub open spec fn sort_nodes(s: Seq<TreeNode>) -> Seq<TreeNode>
    decreases s.len(),
{
    if s.len() == 0 {
        Seq::empty()
    } else {
        insert_sorted(s.last(), sort_nodes(s.drop_last()))
    }
}

pub proof fn lemma_insert_count(x: TreeNode, s: Seq<TreeNode>)
    ensures
        seq_count(insert_sorted(x, s)) == node_count(x) + seq_count(s),
        insert_sorted(x, s).len() == s.len() + 1,
    decreases s.len(),
{
    if s.len() == 0 {
        let r = insert_sorted(x, s);
        assert(r[0] == x);
        assert(r.skip(1) =~= Seq::<TreeNode>::empty());
        assert(seq_count(r.skip(1)) == 0);
    } else if lex_le(node_name(s[0]), node_name(x)) {
        lemma_insert_count(x, s.skip(1));
        let r = seq![s[0]] + insert_sorted(x, s.skip(1));
        assert(r[0] == s[0]);
        assert(r.skip(1) =~= insert_sorted(x, s.skip(1)));
    } else {
        let r = seq![x] + s;
        assert(r[0] == x);
        assert(r.skip(1) =~= s);
    }
}

pub proof fn lemma_sort_count(s: Seq<TreeNode>)
    ensures
        seq_count(sort_nodes(s)) == seq_count(s),
        sort_nodes(s).len() == s.len(),
    decreases s.len(),
{
    if s.len() > 0 {
        lemma_sort_count(s.drop_last());
        lemma_insert_count(s.last(), sort_nodes(s.drop_last()));
        lemma_seq_count_drop_last(s);
    }
}

/// Counting from the front or the back gives the same total.
pub proof fn lemma_seq_count_drop_last(s: Seq<TreeNode>)
    requires
        s.len() > 0,
    ensures
        seq_count(s) == seq_count(s.drop_last()) + node_count(s.last()),
    decreases s.len(),
{
    if s.len() == 1 {
        assert(s.drop_last() =~= Seq::<TreeNode>::empty());
        assert(s.skip(1) =~= Seq::<TreeNode>::empty());
        assert(seq_count(s.skip(1)) == 0);
        assert(seq_count(s.drop_last()) == 0);
    } else {
        lemma_seq_count_drop_last(s.skip(1));
        assert(s.skip(1).drop_last() =~= s.drop_last().skip(1));
        assert(s.skip(1).last() == s.last());
        assert(s.drop_last()[0] == s[0]);
        assert(seq_count(s.drop_last()) == node_count(s[0]) + seq_count(s.drop_last().skip(1)));
    }
}

/// Every node stands for at least one entry.
pub proof fn lemma_node_count_pos(n: TreeNode)
    ensures
        node_count(n) >= 1,
{
}

/// The path of a child entry: its name under the parent prefix.
pub open spec fn child_path(prefix: Seq<char>, name: Seq<char>) -> Seq<char> {
    if prefix.len() == 0 {
        name
    } else {
        prefix + seq!['/'] + name
    }
}

/// The stat record an entry is announced with: its relative path, its
/// permission bits together with the matching file-type bits, its byte
/// length for a file and zero for a directory.
pub open spec fn stat_of(n: TreeNode, prefix: Seq<char>) -> StatModel {
    match n {
        TreeNode::File { name, size, mode } => plain_stat(
            child_path(prefix, name@),
            (mode & 0o7777) | MODE_REG,
            size,
        ),
        TreeNode::Dir { name, mode, .. } => plain_stat(
            child_path(prefix, name@),
            (mode & 0o7777) | MODE_DIR,
            0,
        ),
    }
}

/// The stat sequence of a forest: each directory's entries sorted by
/// name, then each entry followed depth-first by its own subtree.
pub open spec fn dfs_stats(nodes: Seq<TreeNode>, prefix: Seq<char>) -> Seq<StatModel>
    decreases seq_count(nodes), 1int,
    via dfs_stats_dec
{
    dfs_sorted(sort_nodes(nodes), prefix)
}

#[via_fn]
proof fn dfs_stats_dec(nodes: Seq<TreeNode>, prefix: Seq<char>) {
    lemma_sort_count(nodes);
}

/// The stat sequence of an already-sorted forest.
pub open spec fn dfs_sorted(nodes: Seq<TreeNode>, prefix: Seq<char>) -> Seq<StatModel>
    decreases seq_count(nodes), 0int,
    via dfs_sorted_dec
{
    if nodes.len() == 0 {
        Seq::empty()
    } else {
        let head = nodes[0];
        let sub = match head {
            TreeNode::Dir { name, children, .. } => dfs_stats(
                children@,
                child_path(prefix, name@),
            ),
            TreeNode::File { .. } => Seq::empty(),
        };
        seq![stat_of(head, prefix)] + sub + dfs_sorted(nodes.skip(1), prefix)
    }
}

#[via_fn]
proof fn dfs_sorted_dec(nodes: Seq<TreeNode>, prefix: Seq<char>) {
    if nodes.len() > 0 {
        lemma_node_count_pos(nodes[0]);
        assert(seq_count(nodes) == node_count(nodes[0]) + seq_count(nodes.skip(1)));
    }
}

/// The name of a tree node, by reference.
pub fn name_of(n: &TreeNode) -> (r: &String)
    ensures
        r@ == node_name(*n),
{
    match n {
        TreeNode::File { name, .. } => name,
        TreeNode::Dir { name, .. } => name,
    }
}

proof fn lemma_insert_sorted_at(x: TreeNode, s: Seq<TreeNode>, p: int)
    requires
        0 <= p <= s.len(),
        forall|j: int| 0 <= j < p ==> lex_le(node_name(#[trigger] s[j]), node_name(x)),
        p < s.len() ==> !lex_le(node_name(s[p]), node_name(x)),
    ensures
        insert_sorted(x, s) == s.take(p) + seq![x] + s.skip(p),
    decreases p,
{
    if p == 0 {
        if s.len() == 0 {
            assert(insert_sorted(x, s) =~= s.take(0) + seq![x] + s.skip(0));
        } else {
            assert(insert_sorted(x, s) =~= s.take(0) + seq![x] + s.skip(0));
        }
    } else {
        assert(lex_le(node_name(s[0]), node_name(x)));
        assert forall|j: int| 0 <= j < p - 1 implies lex_le(
            node_name(#[trigger] s.skip(1)[j]),
            node_name(x),
        ) by {
            assert(s.skip(1)[j] == s[j + 1]);
        }
        if p - 1 < s.skip(1).len() {
            assert(s.skip(1)[p - 1] == s[p]);
        }
        lemma_insert_sorted_at(x, s.skip(1), p - 1);
        assert(insert_sorted(x, s) == seq![s[0]] + insert_sorted(x, s.skip(1)));
        assert(seq![s[0]] + (s.skip(1).take(p - 1) + seq![x] + s.skip(1).skip(p - 1)) =~= s.take(p)
            + seq![x] + s.skip(p));
    }
}

/// Insert one node into a name-sorted vector, keeping it sorted.
fn insert_by_name(acc: &mut Vec<TreeNode>, x: TreeNode)
    ensures
        final(acc)@ == insert_sorted(x, old(acc)@),
{
    let mut p: usize = 0;
    let x_name_owned = name_of(&x).clone();
    let x_name = x_name_owned.as_str();
    while p < acc.len() && crate::text::str_lex_le(name_of(&acc[p]).as_str(), x_name)
        invariant
            0 <= p <= acc@.len(),
            x_name@ == node_name(x),
            forall|j: int| 0 <= j < p ==> lex_le(node_name(#[trigger] acc@[j]), node_name(x)),
        decreases acc@.len() - p,
    {
        p += 1;
    }
    let ghost pre = acc@;
    let ghost pp = p as int;
    acc.insert(p, x);
    proof {
        lemma_insert_sorted_at(x, pre, pp);
        assert(acc@ =~= pre.take(pp) + seq![x] + pre.skip(pp));
    }
}

/// A forest sorted ascending by name.
pub fn sort_by_name(nodes: Vec<TreeNode>) -> (r: Vec<TreeNode>)
    ensures
        r@ == sort_nodes(nodes@),
{
    let ghost s0 = nodes@;
    let mut rem = nodes;
    let mut acc: Vec<TreeNode> = Vec::new();
    proof {
        assert(s0.take(0) =~= Seq::<TreeNode>::empty());
        assert(rem@ =~= s0.skip(0));
        assert(acc@ =~= sort_nodes(s0.take(0)));
    }
    while rem.len() > 0
        invariant
            rem@.len() <= s0.len(),
            rem@ =~= s0.skip(s0.len() - rem@.len()),
            acc@ == sort_nodes(s0.take(s0.len() - rem@.len())),
        decreases rem@.len(),
    {
        let ghost k = s0.len() - rem@.len();
        let x = rem.remove(0);
        proof {
            assert(x == s0.skip(k)[0]);
            assert(s0.skip(k)[0] == s0[k]);
            assert(rem@ =~= s0.skip(k + 1));
        }
        insert_by_name(&mut acc, x);
        proof {
            assert(s0.take(k + 1).drop_last() =~= s0.take(k));
            assert(s0.take(k + 1).last() == s0[k]);
            assert(acc@ == sort_nodes(s0.take(k + 1)));
        }
    }
    proof {
        assert(s0.take(s0.len() as int) =~= s0);
    }
    acc
}

/// The path of a child entry under `prefix`.
pub fn make_child_path(prefix: &str, name: &String) -> (r: String)
    ensures
        r@ == child_path(prefix@, name@),
{
    if prefix.unicode_len() == 0 {
        name.clone()
    } else {
        let mut p = String::from_str(prefix);
        p.append("/");
        p.append(name.as_str());
        proof {
            reveal_strlit("/");
            assert("/"@ =~= seq!['/']);
        }
        p
    }
}

/// Emit the stats of an already-sorted forest, depth first.
fn emit_sorted(rem: Vec<TreeNode>, prefix: &str, out: &mut Vec<Stat>)
    ensures
        final(out).deep_view() == old(out).deep_view() + dfs_sorted(rem@, prefix@),
    decreases seq_count(rem@), 0int,
{
    let ghost rem0 = rem@;
    if rem.len() == 0 {
        proof {
            assert(dfs_sorted(rem0, prefix@) =~= Seq::<StatModel>::empty());
            assert(final(out).deep_view() =~= old(out).deep_view() + dfs_sorted(rem0, prefix@));
        }
        return;
    }
    let mut rest = rem;
    let x = rest.remove(0);
    proof {
        assert(x == rem0[0]);
        assert(rest@ =~= rem0.skip(1));
        lemma_node_count_pos(x);
        assert(seq_count(rem0) == node_count(x) + seq_count(rem0.skip(1)));
    }
    let ghost base = out.deep_view();
    match x {
        TreeNode::File { name, size, mode } => {
            let path = make_child_path(prefix, &name);
            let st = Stat {
                path,
                mode: (mode & 0o7777) | MODE_REG,
                uid: 0,
                gid: 0,
                size,
                mod_time: 0,
                linkname: String::new(),
                devmajor: 0,
                devminor: 0,
                xattrs: Vec::new(),
            };
            proof {
                assert(st@.xattrs =~= Seq::<(Seq<char>, Seq<u8>)>::empty());
                assert(st@ == stat_of(rem0[0], prefix@));
            }
            out.push(st);
            proof {
                assert(out.deep_view() =~= base + seq![stat_of(rem0[0], prefix@)]);
            }
        },
        TreeNode::Dir { name, mode, children } => {
            let path = make_child_path(prefix, &name);
            let st = Stat {
                path: path.clone(),
                mode: (mode & 0o7777) | MODE_DIR,
                uid: 0,
                gid: 0,
                size: 0,
                mod_time: 0,
                linkname: String::new(),
                devmajor: 0,
                devminor: 0,
                xattrs: Vec::new(),
            };
            proof {
                assert(st@.xattrs =~= Seq::<(Seq<char>, Seq<u8>)>::empty());
                assert(st@ == stat_of(rem0[0], prefix@));
            }
            out.push(st);
            proof {
                assert(out.deep_view() =~= base + seq![stat_of(rem0[0], prefix@)]);
            }
            emit_nodes(children, path.as_str(), out);
            proof {
                assert(out.deep_view() =~= base + seq![stat_of(rem0[0], prefix@)] + dfs_stats(
                    rem0[0]->Dir_children@,
                    child_path(prefix@, rem0[0]->Dir_name@),
                ));
            }
        },
    }
    emit_sorted(rest, prefix, out);
    proof {
        let head = rem0[0];
        let sub = match head {
            TreeNode::Dir { name, children, .. } => dfs_stats(children@, child_path(prefix@, name@)),
            TreeNode::File { .. } => Seq::<StatModel>::empty(),
        };
        assert(dfs_sorted(rem0, prefix@) == seq![stat_of(head, prefix@)] + sub + dfs_sorted(
            rem0.skip(1),
            prefix@,
        ));
        assert(final(out).deep_view() =~= base + seq![stat_of(head, prefix@)] + sub + dfs_sorted(
            rem0.skip(1),
            prefix@,
        ));
        assert(base + seq![stat_of(head, prefix@)] + sub + dfs_sorted(rem0.skip(1), prefix@) =~= base
            + (seq![stat_of(head, prefix@)] + sub + dfs_sorted(rem0.skip(1), prefix@)));
    }
}

/// Emit the stats of a forest: sort it by name, then walk it depth first.
fn emit_nodes(nodes: Vec<TreeNode>, prefix: &str, out: &mut Vec<Stat>)
    ensures
        final(out).deep_view() == old(out).deep_view() + dfs_stats(nodes@, prefix@),
    decreases seq_count(nodes@), 1int,
{
    let ghost n0 = nodes@;
    proof {
        lemma_sort_count(n0);
    }
    let sorted = sort_by_name(nodes);
    emit_sorted(sorted, prefix, out);
}

/// The full STAT enumeration of a context tree: depth-first, each
/// directory's entries sorted ascending by name, ids implied by position.
pub fn context_stats(nodes: Vec<TreeNode>) -> (r: Vec<Stat>)
    ensures
        r.deep_view() == dfs_stats(nodes@, Seq::<char>::empty()),
{
    let mut out: Vec<Stat> = Vec::new();
    proof {
        reveal_strlit("");
        assert(""@ =~= Seq::<char>::empty());
        assert(out.deep_view() =~= Seq::<StatModel>::empty());
    }
    emit_nodes(nodes, "", &mut out);
    proof {
        assert(Seq::<StatModel>::empty() + dfs_stats(nodes@, Seq::<char>::empty()) =~= dfs_stats(
            nodes@,
            Seq::<char>::empty(),
        ));
    }
    out
}

/// The end-of-stats marker a STAT phase closes with: a STAT packet with
/// no stat record.
pub open spec fn terminator_stat_model() -> PacketModel {
    PacketModel { ptype: PACKET_STAT, stat: None, id: 0, data: Seq::empty() }
}

/// The STAT packets of an enumeration: one per stat, ids dense and
/// ascending from zero in emission order, closed by the empty marker.
pub fn stat_packets(stats: Vec<Stat>) -> (r: Vec<Packet>)
    requires
        stats@.len() <= u32::MAX,
    ensures
        r.deep_view().len() == stats@.len() + 1,
        forall|i: int|
            0 <= i < stats@.len() ==> #[trigger] r.deep_view()[i] == (PacketModel {
                ptype: PACKET_STAT,
                stat: Some(stats.deep_view()[i]),
                id: i as u32,
                data: Seq::empty(),
            }),
        r.deep_view()[stats@.len() as int] == terminator_stat_model(),
{
    let ghost s0 = stats.deep_view();
    let mut rem = stats;
    let mut out: Vec<Packet> = Vec::new();
    let mut id: u32 = 0;
    while rem.len() > 0
        invariant
            s0.len() <= u32::MAX,
            rem@.len() <= s0.len(),
            id == s0.len() - rem@.len(),
            rem.deep_view() =~= s0.skip(id as int),
            out.deep_view().len() == id,
            forall|i: int|
                0 <= i < id ==> #[trigger] out.deep_view()[i] == (PacketModel {
                    ptype: PACKET_STAT,
                    stat: Some(s0[i]),
                    id: i as u32,
                    data: Seq::empty(),
                }),
        decreases rem@.len(),
    {
        let ghost rem_pre = rem@;
        let ghost rem_pre_deep = rem.deep_view();
        let st = rem.remove(0);
        proof {
            assert(st == rem_pre[0]);
            assert(rem_pre_deep[0] == rem_pre[0]@);
            assert(s0.skip(id as int)[0] == s0[id as int]);
            assert(st@ == s0[id as int]);
        }
        let pkt = Packet { ptype: PACKET_STAT, stat: Some(st), id, data: Vec::new() };
        proof {
            assert(pkt@ == PacketModel {
                ptype: PACKET_STAT,
                stat: Some(s0[id as int]),
                id: id,
                data: Seq::empty(),
            });
        }
        let ghost out_pre = out.deep_view();
        out.push(pkt);
        proof {
            assert(out.deep_view() =~= out_pre.push(pkt@));
            assert forall|k: int| 0 <= k < rem@.len() implies rem.deep_view()[k] == s0.skip(
                id + 1,
            )[k] by {
                assert(rem@[k] == rem_pre[k + 1]);
                assert(rem_pre_deep[k + 1] == rem_pre[k + 1]@);
                assert(s0.skip(id as int)[k + 1] == s0[id + 1 + k]);
                assert(s0.skip(id + 1)[k] == s0[id + 1 + k]);
            }
            assert(rem.deep_view() =~= s0.skip(id + 1));
        }
        id = id + 1;
    }
    let term = Packet { ptype: PACKET_STAT, stat: None, id: 0, data: Vec::new() };
    proof {
        assert(term@.data =~= Seq::<u8>::empty());
        assert(term@ == terminator_stat_model());
    }
    let ghost out_pre = out.deep_view();
    out.push(term);
    proof {
        assert(out.deep_view() =~= out_pre.push(term@));
    }
    out
}

/// A node that the Dockerfile-only mode would send: a file named
/// `Dockerfile` at the context root.
pub open spec fn is_dockerfile(n: TreeNode) -> bool {
    n is File && node_name(n) == "Dockerfile"@
}

/// The single-stat enumeration used when the daemon asks for the
/// Dockerfile alone: the first root entry that is a file named
/// `Dockerfile`, or an error when there is none.
pub fn dockerfile_stats(nodes: &Vec<TreeNode>) -> (r: Result<Vec<Stat>, BuildError>)
    ensures
        (r is Ok) <==> (exists|i: int| 0 <= i < nodes@.len() && is_dockerfile(#[trigger] nodes@[i])),
        r matches Ok(v) ==> exists|i: int|
            {
                &&& 0 <= i < nodes@.len()
                &&& is_dockerfile(#[trigger] nodes@[i])
                &&& forall|j: int| 0 <= j < i ==> !is_dockerfile(#[trigger] nodes@[j])
                &&& v.deep_view() =~= seq![stat_of(nodes@[i], Seq::<char>::empty())]
            },
        r matches Err(e) ==> e == BuildError::DockerfileMissing,
{
    let mut i: usize = 0;
    while i < nodes.len()
        invariant
            0 <= i <= nodes@.len(),
            forall|j: int| 0 <= j < i ==> !is_dockerfile(#[trigger] nodes@[j]),
        decreases nodes@.len() - i,
    {
        let node = &nodes[i];
        match node {
            TreeNode::File { name, size, mode } => {
                if crate::text::str_eq(name.as_str(), "Dockerfile") {
                    let st = Stat {
                        path: name.clone(),
                        mode: (*mode & 0o7777) | MODE_REG,
                        uid: 0,
                        gid: 0,
                        size: *size,
                        mod_time: 0,
                        linkname: String::new(),
                        devmajor: 0,
                        devminor: 0,
                        xattrs: Vec::new(),
                    };
                    let mut v: Vec<Stat> = Vec::new();
                    proof {
                        assert(is_dockerfile(nodes@[i as int]));
                        assert(st@.xattrs =~= Seq::<(Seq<char>, Seq<u8>)>::empty());
                        assert(st@ == stat_of(nodes@[i as int], Seq::<char>::empty()));
                    }
                    v.push(st);
                    return Ok(v);
                }
            },
            TreeNode::Dir { .. } => {},
        }
        proof {
            assert(!is_dockerfile(nodes@[i as int]));
        }
        i += 1;
    }
    Err(BuildError::DockerfileMissing)
}

/// The path a REQ for `id` refers to, when that id was announced as a
/// regular file; a directory id or an unknown id names nothing.
pub open spec fn spec_file_path(stats: Seq<StatModel>, id: u32) -> Option<Seq<char>> {
    if id < stats.len() && (stats[id as int].mode & MODE_TYPE_MASK) == MODE_REG {
        Some(stats[id as int].path)
    } else {
        None
    }
}

/// Look up the file a REQ asks for; only ids of regular files resolve.
pub fn lookup_file<'a>(stats: &'a Vec<Stat>, id: u32) -> (r: Option<&'a String>)
    ensures
        match r {
            Some(p) => spec_file_path(stats.deep_view(), id) == Some(p@),
            None => spec_file_path(stats.deep_view(), id) is None,
        },
{
    if (id as usize) < stats.len() {
        let st = &stats[id as usize];
        if (st.mode & MODE_TYPE_MASK) == MODE_REG {
            return Some(&st.path);
        }
        return None;
    }
    None
}

/// The payloads a file's bytes are sent in: full 32 KiB runs, a shorter
/// final run, and the closing empty payload.
pub open spec fn chunks_of(data: Seq<u8>) -> Seq<Seq<u8>>
    decreases data.len(),
{
    if data.len() == 0 {
        seq![Seq::empty()]
    } else if data.len() <= DATA_CHUNK_SIZE {
        seq![data, Seq::empty()]
    } else {
        seq![data.take(DATA_CHUNK_SIZE as int)] + chunks_of(data.skip(DATA_CHUNK_SIZE as int))
    }
}

/// The payloads of a file's DATA packets put back together are the file.
pub proof fn lemma_chunks_flatten(data: Seq<u8>)
    ensures
        chunks_of(data).flatten() == data,
    decreases data.len(),
{
    if data.len() == 0 {
        let t = seq![Seq::<u8>::empty()];
        assert(t.first() == Seq::<u8>::empty());
        assert(t.drop_first() =~= Seq::<Seq<u8>>::empty());
        assert(t.drop_first().flatten() == Seq::<u8>::empty());
        assert(chunks_of(data).flatten() =~= data);
    } else if data.len() <= DATA_CHUNK_SIZE {
        let t = seq![data, Seq::<u8>::empty()];
        assert(t.first() == data);
        assert(t.drop_first() =~= seq![Seq::<u8>::empty()]);
        let u = seq![Seq::<u8>::empty()];
        assert(u.first() == Seq::<u8>::empty());
        assert(u.drop_first() =~= Seq::<Seq<u8>>::empty());
        assert(u.drop_first().flatten() == Seq::<u8>::empty());
        assert(u.flatten() =~= Seq::<u8>::empty());
        assert(t.flatten() =~= data);
    } else {
        lemma_chunks_flatten(data.skip(DATA_CHUNK_SIZE as int));
        let head = data.take(DATA_CHUNK_SIZE as int);
        let tail = data.skip(DATA_CHUNK_SIZE as int);
        assert((seq![head] + chunks_of(tail)).flatten() =~= head + chunks_of(tail).flatten()) by {
            vstd::seq_lib::lemma_flatten_concat(seq![head], chunks_of(tail));
            let t = seq![head];
            assert(t.first() == head);
            assert(t.drop_first() =~= Seq::<Seq<u8>>::empty());
            assert(t.drop_first().flatten() == Seq::<u8>::empty());
            assert(t.flatten() =~= head);
        }
        assert(head + tail =~= data);
    }
}

/// The DATA packets that answer a REQ for `id` with `content`: at most
/// 32 KiB each, in file order, closed by one empty DATA with the same id.
pub fn data_packets(id: u32, content: &Vec<u8>) -> (r: Vec<Packet>)
    ensures
        r.deep_view().len() == chunks_of(content@).len(),
        forall|i: int|
            0 <= i < r.deep_view().len() ==> #[trigger] r.deep_view()[i] == (PacketModel {
                ptype: PACKET_DATA,
                stat: None,
                id: id,
                data: chunks_of(content@)[i],
            }),
{
    let mut out: Vec<Packet> = Vec::new();
    let mut pos: usize = 0;
    let len = content.len();
    proof {
        assert(out.deep_view() =~= Seq::<PacketModel>::empty());
        assert(out.deep_view().map_values(|p: PacketModel| p.data) =~= Seq::<Seq<u8>>::empty());
        assert(content@.skip(0) =~= content@);
    }
    while len - pos > DATA_CHUNK_SIZE
        invariant
            0 <= pos <= len,
            len == content@.len(),
            chunks_of(content@) =~= out.deep_view().map_values(|p: PacketModel| p.data)
                + chunks_of(content@.skip(pos as int)),
            forall|i: int|
                0 <= i < out.deep_view().len() ==> #[trigger] out.deep_view()[i] == (PacketModel {
                    ptype: PACKET_DATA,
                    stat: None,
                    id: id,
                    data: out.deep_view()[i].data,
                }),
        decreases len - pos,
    {
        let mut chunk: Vec<u8> = Vec::new();
        let mut k: usize = 0;
        while k < DATA_CHUNK_SIZE
            invariant
                0 <= k <= DATA_CHUNK_SIZE,
                len == content@.len(),
                pos + DATA_CHUNK_SIZE < len || pos + DATA_CHUNK_SIZE == len,
                chunk@ =~= content@.subrange(pos as int, pos + k),
            decreases DATA_CHUNK_SIZE - k,
        {
            chunk.push(content[pos + k]);
            k += 1;
        }
        let ghost pre = out.deep_view();
        let ghost remaining = content@.skip(pos as int);
        out.push(Packet { ptype: PACKET_DATA, stat: None, id, data: chunk });
        proof {
            assert(remaining.len() > DATA_CHUNK_SIZE);
            assert(remaining.take(DATA_CHUNK_SIZE as int) =~= content@.subrange(
                pos as int,
                pos + DATA_CHUNK_SIZE,
            ));
            assert(remaining.skip(DATA_CHUNK_SIZE as int) =~= content@.skip(
                pos + DATA_CHUNK_SIZE,
            ));
            assert(out.deep_view() =~= pre.push(PacketModel {
                ptype: PACKET_DATA,
                stat: None,
                id: id,
                data: remaining.take(DATA_CHUNK_SIZE as int),
            }));
            assert(out.deep_view().map_values(|p: PacketModel| p.data) =~= pre.map_values(
                |p: PacketModel| p.data,
            ).push(remaining.take(DATA_CHUNK_SIZE as int)));
            assert(chunks_of(remaining) == seq![remaining.take(DATA_CHUNK_SIZE as int)] + chunks_of(
                remaining.skip(DATA_CHUNK_SIZE as int),
            ));
            assert(chunks_of(content@) =~= out.deep_view().map_values(|p: PacketModel| p.data)
                + chunks_of(content@.skip(pos + DATA_CHUNK_SIZE)));
        }
        pos += DATA_CHUNK_SIZE;
    }
    let ghost remaining = content@.skip(pos as int);
    if pos < len {
        let mut chunk: Vec<u8> = Vec::new();
        let mut k: usize = 0;
        let tail_len = len - pos;
        while k < tail_len
            invariant
                0 <= k <= tail_len,
                len == content@.len(),
                tail_len == len - pos,
                pos < len,
                chunk@ =~= content@.subrange(pos as int, pos + k),
            decreases tail_len - k,
        {
            chunk.push(content[pos + k]);
            k += 1;
        }
        let ghost pre = out.deep_view();
        out.push(Packet { ptype: PACKET_DATA, stat: None, id, data: chunk });
        proof {
            assert(remaining.len() > 0 && remaining.len() <= DATA_CHUNK_SIZE);
            assert(remaining =~= content@.subrange(pos as int, len as int));
            assert(chunks_of(remaining) == seq![remaining, Seq::<u8>::empty()]);
            assert(out.deep_view() =~= pre.push(PacketModel {
                ptype: PACKET_DATA,
                stat: None,
                id: id,
                data: remaining,
            }));
        }
    }
    let ghost pre = out.deep_view();
    out.push(Packet { ptype: PACKET_DATA, stat: None, id, data: Vec::new() });
    proof {
        assert(out.deep_view() =~= pre.push(PacketModel {
            ptype: PACKET_DATA,
            stat: None,
            id: id,
            data: Seq::empty(),
        }));
        if remaining.len() == 0 {
            assert(chunks_of(remaining) == seq![Seq::<u8>::empty()]);
        }
        assert(out.deep_view().map_values(|p: PacketModel| p.data) =~= pre.map_values(
            |p: PacketModel| p.data,
        ).push(Seq::<u8>::empty()));
        assert(chunks_of(content@) =~= out.deep_view().map_values(|p: PacketModel| p.data));
        assert forall|i: int| 0 <= i < out.deep_view().len() implies #[trigger] out.deep_view()[i]
            == PacketModel {
            ptype: PACKET_DATA,
            stat: None,
            id: id,
            data: chunks_of(content@)[i],
        } by {
            assert(chunks_of(content@)[i] == out.deep_view().map_values(
                |p: PacketModel| p.data,
            )[i]);
        }
    }
    out
}

/// The single FIN packet the whole transfer is closed with.
pub fn fin_packet() -> (r: Packet)
    ensures
        r@ == (PacketModel { ptype: PACKET_FIN, stat: None, id: 0, data: Seq::empty() }),
{
    Packet { ptype: PACKET_FIN, stat: None, id: 0, data: Vec::new() }
}

/// What the transfer does next on one inbound packet.
pub enum ReqAction {
    /// Stream the named file out as DATA packets carrying this id.
    SendFile { id: u32, path: String },
    /// Log and carry on: a REQ for a directory or unknown id, or a
    /// packet of no interest.
    Ignore,
    /// The daemon is done requesting; close the transfer.
    Finish,
}

/// The transfer rule applied to each packet the daemon sends after the
/// STAT phase: a REQ for an announced file id starts that file's DATA
/// stream; a REQ for any other id is ignored; FIN ends the exchange;
/// every other kind is ignored.
pub fn diff_copy_step(stats: &Vec<Stat>, pkt: &Packet) -> (r: ReqAction)
    ensures
        (pkt.ptype == PACKET_REQ && spec_file_path(stats.deep_view(), pkt.id) is Some) ==> ({
            &&& r matches ReqAction::SendFile { id, path }
            &&& id == pkt.id
            &&& Some(path@) == spec_file_path(stats.deep_view(), pkt.id)
        }),
        pkt.ptype == PACKET_REQ && spec_file_path(stats.deep_view(), pkt.id) is None ==> r
            is Ignore,
        pkt.ptype == PACKET_FIN ==> r is Finish,
        pkt.ptype != PACKET_REQ && pkt.ptype != PACKET_FIN ==> r is Ignore,
{
    if pkt.ptype == PACKET_REQ {
        match lookup_file(stats, pkt.id) {
            Some(path) => ReqAction::SendFile { id: pkt.id, path: path.clone() },
            None => ReqAction::Ignore,
        }
    } else if pkt.ptype == PACKET_FIN {
        ReqAction::Finish
    } else {
        ReqAction::Ignore
    }
}

/// A forest sorted ascending by name.
pub open spec fn sorted_by_name(s: Seq<TreeNode>) -> bool {
    forall|i: int, j: int|
        0 <= i < j < s.len() ==> lex_le(node_name(#[trigger] s[i]), node_name(#[trigger] s[j]))
}

/// The lexicographic order is total.
pub proof fn lemma_lex_total(a: Seq<char>, b: Seq<char>)
    ensures
        lex_le(a, b) || lex_le(b, a),
    decreases a.len(),
{
    if a.len() == 0 {
        assert(lex_le(a, b));
    } else if b.len() == 0 {
        assert(lex_le(b, a));
    } else if (a[0] as u32) < (b[0] as u32) {
        assert(lex_le(a, b));
    } else if (a[0] as u32) == (b[0] as u32) {
        lemma_lex_total(a.skip(1), b.skip(1));
        assert(lex_le(a, b) == lex_le(a.skip(1), b.skip(1)));
        assert(lex_le(b, a) == lex_le(b.skip(1), a.skip(1)));
    } else {
        assert(lex_le(b, a));
    }
}

/// The lexicographic order is transitive.
pub proof fn lemma_lex_trans(a: Seq<char>, b: Seq<char>, c: Seq<char>)
    requires
        lex_le(a, b),
        lex_le(b, c),
    ensures
        lex_le(a, c),
    decreases a.len(),
{
    if a.len() > 0 && c.len() > 0 && b.len() > 0 {
        if (a[0] as u32) == (b[0] as u32) && (b[0] as u32) == (c[0] as u32) {
            lemma_lex_trans(a.skip(1), b.skip(1), c.skip(1));
        }
    }
}

proof fn lemma_insert_keeps_sorted(x: TreeNode, s: Seq<TreeNode>)
    requires
        sorted_by_name(s),
    ensures
        sorted_by_name(insert_sorted(x, s)),
    decreases s.len(),
{
    let r = insert_sorted(x, s);
    if s.len() == 0 {
        assert(r =~= seq![x]);
    } else if lex_le(node_name(s[0]), node_name(x)) {
        assert forall|i: int, j: int|
            0 <= i < j < s.skip(1).len() implies lex_le(
            node_name(#[trigger] s.skip(1)[i]),
            node_name(#[trigger] s.skip(1)[j]),
        ) by {
            assert(s.skip(1)[i] == s[i + 1]);
            assert(s.skip(1)[j] == s[j + 1]);
        }
        lemma_insert_keeps_sorted(x, s.skip(1));
        let tail = insert_sorted(x, s.skip(1));
        assert(r =~= seq![s[0]] + tail);
        assert forall|i: int, j: int|
            0 <= i < j < r.len() implies lex_le(
            node_name(#[trigger] r[i]),
            node_name(#[trigger] r[j]),
        ) by {
            if i == 0 {
                assert(r[j] == tail[j - 1]);
                lemma_insert_sorted_element(x, s.skip(1), j - 1);
                if tail[j - 1] == x {
                    assert(lex_le(node_name(s[0]), node_name(x)));
                } else {
                    let k = choose|k: int|
                        0 <= k < s.skip(1).len() && tail[j - 1] == s.skip(1)[k];
                    assert(s.skip(1)[k] == s[k + 1]);
                    assert(lex_le(node_name(s[0]), node_name(s[k + 1])));
                }
            } else {
                assert(r[i] == tail[i - 1]);
                assert(r[j] == tail[j - 1]);
            }
        }
    } else {
        assert(r =~= seq![x] + s);
        assert forall|i: int, j: int|
            0 <= i < j < r.len() implies lex_le(
            node_name(#[trigger] r[i]),
            node_name(#[trigger] r[j]),
        ) by {
            if i == 0 {
                assert(r[j] == s[j - 1]);
                lemma_lex_total(node_name(s[0]), node_name(x));
                assert(lex_le(node_name(x), node_name(s[0])));
                if j > 1 {
                    lemma_lex_trans(node_name(x), node_name(s[0]), node_name(s[j - 1]));
                }
            } else {
                assert(r[i] == s[i - 1]);
                assert(r[j] == s[j - 1]);
            }
        }
    }
}

/// Every element of an insertion is the inserted node or one of the old ones.
proof fn lemma_insert_sorted_element(x: TreeNode, s: Seq<TreeNode>, i: int)
    requires
        0 <= i < insert_sorted(x, s).len(),
    ensures
        insert_sorted(x, s)[i] == x || exists|k: int|
            0 <= k < s.len() && insert_sorted(x, s)[i] == #[trigger] s[k],
    decreases s.len(),
{
    let r = insert_sorted(x, s);
    if s.len() == 0 {
        assert(r[0] == x);
    } else if lex_le(node_name(s[0]), node_name(x)) {
        if i == 0 {
            assert(r[0] == s[0]);
        } else {
            assert(r[i] == insert_sorted(x, s.skip(1))[i - 1]);
            lemma_insert_sorted_element(x, s.skip(1), i - 1);
            if insert_sorted(x, s.skip(1))[i - 1] != x {
                let k = choose|k: int|
                    0 <= k < s.skip(1).len() && insert_sorted(x, s.skip(1))[i - 1] == #[trigger] s.skip(
                        1,
                    )[k];
                assert(s.skip(1)[k] == s[k + 1]);
            }
        }
    } else {
        if i == 0 {
            assert(r[0] == x);
        } else {
            assert(r[i] == s[i - 1]);
        }
    }
}

/// Sorting a forest gives it back in ascending name order: the sorted
/// view the enumeration is defined over is really sorted, and holds the
/// same nodes as the input.
pub proof fn lemma_sort_nodes_sorted(s: Seq<TreeNode>)
    ensures
        sorted_by_name(sort_nodes(s)),
        sort_nodes(s).to_multiset() == s.to_multiset(),
    decreases s.len(),
{
    broadcast use vstd::seq_lib::lemma_multiset_commutative;
    broadcast use vstd::multiset::group_multiset_axioms;

    if s.len() == 0 {
        assert(sort_nodes(s) =~= Seq::<TreeNode>::empty());
        assert(s =~= Seq::<TreeNode>::empty());
    } else {
        lemma_sort_nodes_sorted(s.drop_last());
        lemma_insert_keeps_sorted(s.last(), sort_nodes(s.drop_last()));
        lemma_insert_multiset(s.last(), sort_nodes(s.drop_last()));
        assert(s.drop_last().push(s.last()) =~= s);
        assert(s.drop_last().push(s.last()).to_multiset() =~= s.drop_last().to_multiset().insert(
            s.last(),
        )) by {
            s.drop_last().to_multiset_ensures();
        }
        assert(sort_nodes(s).to_multiset() =~= s.to_multiset());
    }
}

proof fn lemma_insert_multiset(x: TreeNode, s: Seq<TreeNode>)
    ensures
        insert_sorted(x, s).to_multiset() == s.to_multiset().insert(x),
    decreases s.len(),
{
    broadcast use vstd::seq_lib::lemma_multiset_commutative;
    broadcast use vstd::multiset::group_multiset_axioms;

    s.to_multiset_ensures();
    if s.len() == 0 {
        assert(s =~= Seq::<TreeNode>::empty());
        assert(insert_sorted(x, s) =~= s.push(x));
        assert(s.push(x).to_multiset() =~= s.to_multiset().insert(x));
    } else if lex_le(node_name(s[0]), node_name(x)) {
        lemma_insert_multiset(x, s.skip(1));
        let tail = insert_sorted(x, s.skip(1));
        assert(insert_sorted(x, s) == seq![s[0]] + tail);
        assert((seq![s[0]] + tail).to_multiset() =~= seq![s[0]].to_multiset().add(
            tail.to_multiset(),
        ));
        assert(s =~= seq![s[0]] + s.skip(1));
        assert((seq![s[0]] + s.skip(1)).to_multiset() =~= seq![s[0]].to_multiset().add(
            s.skip(1).to_multiset(),
        ));
        assert(seq![s[0]].to_multiset().add(s.skip(1).to_multiset().insert(x)) =~= (
        seq![s[0]].to_multiset().add(s.skip(1).to_multiset())).insert(x));
        assert(insert_sorted(x, s).to_multiset() =~= s.to_multiset().insert(x));
    } else {
        let e = Seq::<TreeNode>::empty();
        e.to_multiset_ensures();
        assert(seq![x] =~= e.push(x));
        assert(e.push(x).to_multiset() =~= e.to_multiset().insert(x));
        assert(insert_sorted(x, s) == seq![x] + s);
        assert((seq![x] + s).to_multiset() =~= seq![x].to_multiset().add(s.to_multiset()));
        assert forall|a: TreeNode| e.to_multiset().count(a) == 0 by {
            assert(!e.contains(a));
        }
        assert(e.to_multiset().insert(x).add(s.to_multiset()) =~= s.to_multiset().insert(x));
        assert(insert_sorted(x, s).to_multiset() =~= s.to_multiset().insert(x));
    }
}

/// A well-formed directory node has a well-formed forest of children.
proof fn lemma_wf_node_dir(n: TreeNode)
    requires
        wf_node(n),
        n is Dir,
    ensures
        wf_forest(n->Dir_children@),
{
    match n {
        TreeNode::Dir { children, .. } => {
            assert(wf_forest(children@));
        },
        TreeNode::File { .. } => {},
    }
}

/// A directory stat: typed as a directory.
pub open spec fn stat_is_dir(s: StatModel) -> bool {
    s.mode & MODE_TYPE_MASK == MODE_DIR
}

/// A regular-file stat: typed as a regular file.
pub open spec fn stat_is_reg(s: StatModel) -> bool {
    s.mode & MODE_TYPE_MASK == MODE_REG
}

proof fn lemma_mode_type_bits(m: u32)
    ensures
        ((m & 0o7777) | MODE_DIR) & MODE_TYPE_MASK == MODE_DIR,
        ((m & 0o7777) | MODE_REG) & MODE_TYPE_MASK == MODE_REG,
{
    assert(((m & 0o7777) | 0o040000u32) & 0o170000u32 == 0o040000u32) by (bit_vector);
    assert(((m & 0o7777) | 0o100000u32) & 0o170000u32 == 0o100000u32) by (bit_vector);
}

/// Every stat of an enumeration carries its file-type bits: a directory
/// is announced with the directory type bits and size zero, a file with
/// the regular-file type bits.
pub proof fn lemma_stat_modes(nodes: Seq<TreeNode>, prefix: Seq<char>)
    ensures
        forall|i: int|
            0 <= i < dfs_stats(nodes, prefix).len() ==> ((stat_is_dir(
                #[trigger] dfs_stats(nodes, prefix)[i],
            ) && dfs_stats(nodes, prefix)[i].size == 0) || stat_is_reg(dfs_stats(nodes, prefix)[i])),
    decreases seq_count(nodes), 1int,
{
    lemma_sort_count(nodes);
    lemma_sorted_stat_modes(sort_nodes(nodes), prefix);
    assert(dfs_stats(nodes, prefix) == dfs_sorted(sort_nodes(nodes), prefix));
}

proof fn lemma_sorted_stat_modes(nodes: Seq<TreeNode>, prefix: Seq<char>)
    ensures
        forall|i: int|
            0 <= i < dfs_sorted(nodes, prefix).len() ==> ((stat_is_dir(
                #[trigger] dfs_sorted(nodes, prefix)[i],
            ) && dfs_sorted(nodes, prefix)[i].size == 0) || stat_is_reg(
                dfs_sorted(nodes, prefix)[i],
            )),
    decreases seq_count(nodes), 0int,
{
    if nodes.len() > 0 {
        let head = nodes[0];
        let st = stat_of(head, prefix);
        match head {
            TreeNode::File { mode, .. } => lemma_mode_type_bits(mode),
            TreeNode::Dir { mode, .. } => lemma_mode_type_bits(mode),
        }
        let sub = match head {
            TreeNode::Dir { name, children, .. } => dfs_stats(children@, child_path(prefix, name@)),
            TreeNode::File { .. } => Seq::<StatModel>::empty(),
        };
        lemma_node_count_pos(head);
        assert(seq_count(nodes) == node_count(head) + seq_count(nodes.skip(1)));
        match head {
            TreeNode::Dir { name, children, .. } => {
                lemma_stat_modes(children@, child_path(prefix, name@));
            },
            TreeNode::File { .. } => {},
        }
        lemma_sorted_stat_modes(nodes.skip(1), prefix);
        let whole = dfs_sorted(nodes, prefix);
        assert(whole == seq![st] + sub + dfs_sorted(nodes.skip(1), prefix));
        assert forall|i: int|
            0 <= i < whole.len() implies ((stat_is_dir(#[trigger] whole[i]) && whole[i].size == 0)
            || stat_is_reg(whole[i])) by {
            if i == 0 {
                assert(whole[0] == st);
            } else if i < 1 + sub.len() {
                assert(whole[i] == sub[i - 1]);
            } else {
                assert(whole[i] == dfs_sorted(nodes.skip(1), prefix)[i - 1 - sub.len()]);
            }
        }
    }
}

/// A node name a filesystem can produce: nonempty, without separators,
/// and neither of the two relative path dots.
pub open spec fn wf_name(name: Seq<char>) -> bool {
    &&& name.len() > 0
    &&& forall|i: int| 0 <= i < name.len() ==> name[i] != '/'
    &&& name != "."@
    &&& name != ".."@
}

/// A well-formed tree: every name at every level is well formed.
pub open spec fn wf_node(n: TreeNode) -> bool
    decreases n,
{
    match n {
        TreeNode::File { name, .. } => wf_name(name@),
        TreeNode::Dir { name, children, .. } => wf_name(name@) && wf_forest(children@),
    }
}

/// A well-formed forest: every tree in it is well formed.
pub open spec fn wf_forest(s: Seq<TreeNode>) -> bool
    decreases s,
{
    if s.len() == 0 {
        true
    } else {
        wf_node(s[0]) && wf_forest(s.skip(1))
    }
}

/// Each tree of a well-formed forest is well formed.
pub proof fn lemma_wf_forest_index(s: Seq<TreeNode>, i: int)
    requires
        wf_forest(s),
        0 <= i < s.len(),
    ensures
        wf_node(s[i]),
    decreases i,
{
    if i > 0 {
        assert(s.skip(1)[i - 1] == s[i]);
        lemma_wf_forest_index(s.skip(1), i - 1);
    }
}

/// A forest of well-formed trees is a well-formed forest.
pub proof fn lemma_wf_forest_from_all(s: Seq<TreeNode>)
    requires
        forall|i: int| 0 <= i < s.len() ==> wf_node(#[trigger] s[i]),
    ensures
        wf_forest(s),
    decreases s.len(),
{
    if s.len() > 0 {
        assert forall|i: int| 0 <= i < s.skip(1).len() implies wf_node(
            #[trigger] s.skip(1)[i],
        ) by {
            assert(s.skip(1)[i] == s[i + 1]);
        }
        lemma_wf_forest_from_all(s.skip(1));
    }
}

/// A path that cannot escape its root: every slash-separated component
/// is nonempty and is not a relative dot.
pub open spec fn clean_path(p: Seq<char>) -> bool {
    let parts = crate::text::split_char(p, '/');
    forall|i: int|
        0 <= i < parts.len() ==> ((#[trigger] parts[i]).len() > 0 && parts[i] != "."@ && parts[i]
            != ".."@)
}

proof fn lemma_split_concat(a: Seq<char>, b: Seq<char>, c: char)
    ensures
        crate::text::split_char(a + seq![c] + b, c) == crate::text::split_char(a, c)
            + crate::text::split_char(b, c),
    decreases a.len(),
{
    let whole = a + seq![c] + b;
    let f = crate::text::find_char(a, c);
    crate::text::lemma_find_char(a, c);
    if f < 0 {
        assert forall|j: int| 0 <= j < a.len() implies whole[j] != c by {
            assert(whole[j] == a[j]);
        }
        assert(whole[a.len() as int] == c);
        crate::text::lemma_find_char_at(whole, c, a.len() as int);
        assert(whole.take(a.len() as int) =~= a);
        assert(whole.skip(a.len() as int + 1) =~= b);
        assert(crate::text::split_char(whole, c) == seq![a] + crate::text::split_char(b, c));
        assert(crate::text::split_char(a, c) == seq![a]);
    } else {
        assert forall|j: int| 0 <= j < f implies whole[j] != c by {
            assert(whole[j] == a[j]);
        }
        assert(whole[f] == a[f]);
        crate::text::lemma_find_char_at(whole, c, f);
        assert(whole.take(f) =~= a.take(f));
        assert(whole.skip(f + 1) =~= a.skip(f + 1) + seq![c] + b);
        lemma_split_concat(a.skip(f + 1), b, c);
        assert(crate::text::split_char(whole, c) == seq![a.take(f)] + (crate::text::split_char(
            a.skip(f + 1),
            c,
        ) + crate::text::split_char(b, c)));
        assert(seq![a.take(f)] + (crate::text::split_char(a.skip(f + 1), c)
            + crate::text::split_char(b, c)) =~= (seq![a.take(f)] + crate::text::split_char(
            a.skip(f + 1),
            c,
        )) + crate::text::split_char(b, c));
    }
}

proof fn lemma_clean_single(name: Seq<char>)
    requires
        wf_name(name),
    ensures
        clean_path(name),
        crate::text::split_char(name, '/') == seq![name],
{
    crate::text::lemma_find_char_absent(name, '/');
    assert(crate::text::split_char(name, '/') == seq![name]);
}

proof fn lemma_clean_child(prefix: Seq<char>, name: Seq<char>)
    requires
        wf_name(name),
        prefix.len() == 0 || clean_path(prefix),
    ensures
        clean_path(child_path(prefix, name)),
        child_path(prefix, name).len() > 0,
{
    if prefix.len() == 0 {
        lemma_clean_single(name);
    } else {
        lemma_split_concat(prefix, name, '/');
        lemma_clean_single(name);
        let parts = crate::text::split_char(child_path(prefix, name), '/');
        let pparts = crate::text::split_char(prefix, '/');
        assert(parts == pparts + seq![name]);
        assert forall|i: int|
            0 <= i < parts.len() implies ((#[trigger] parts[i]).len() > 0 && parts[i] != "."@
            && parts[i] != ".."@) by {
            if i < pparts.len() {
                assert(parts[i] == pparts[i]);
            } else {
                assert(parts[i] == name);
            }
        }
    }
}

proof fn lemma_wf_insert(x: TreeNode, s: Seq<TreeNode>)
    requires
        wf_node(x),
        wf_forest(s),
    ensures
        wf_forest(insert_sorted(x, s)),
{
    assert forall|i: int| 0 <= i < insert_sorted(x, s).len() implies wf_node(
        #[trigger] insert_sorted(x, s)[i],
    ) by {
        lemma_insert_sorted_element(x, s, i);
        if insert_sorted(x, s)[i] != x {
            let k = choose|k: int|
                0 <= k < s.len() && insert_sorted(x, s)[i] == #[trigger] s[k];
            lemma_wf_forest_index(s, k);
        }
    }
    lemma_wf_forest_from_all(insert_sorted(x, s));
}

proof fn lemma_wf_sort(s: Seq<TreeNode>)
    requires
        wf_forest(s),
    ensures
        wf_forest(sort_nodes(s)),
    decreases s.len(),
{
    if s.len() > 0 {
        assert forall|i: int| 0 <= i < s.drop_last().len() implies wf_node(
            #[trigger] s.drop_last()[i],
        ) by {
            assert(s.drop_last()[i] == s[i]);
            lemma_wf_forest_index(s, i);
        }
        lemma_wf_forest_from_all(s.drop_last());
        lemma_wf_sort(s.drop_last());
        lemma_wf_forest_index(s, s.len() - 1);
        lemma_wf_insert(s.last(), sort_nodes(s.drop_last()));
    }
}

/// No enumerated path can escape the root: with well-formed names, every
/// path sent in a STAT is a chain of plain components, free of empty
/// pieces and relative dots, so its canonical form stays under the root.
pub proof fn lemma_clean_paths(nodes: Seq<TreeNode>, prefix: Seq<char>)
    requires
        wf_forest(nodes),
        prefix.len() == 0 || clean_path(prefix),
    ensures
        forall|i: int|
            0 <= i < dfs_stats(nodes, prefix).len() ==> clean_path(
                (#[trigger] dfs_stats(nodes, prefix)[i]).path,
            ),
    decreases seq_count(nodes), 1int,
{
    lemma_sort_count(nodes);
    lemma_wf_sort(nodes);
    lemma_sorted_clean_paths(sort_nodes(nodes), prefix);
    assert(dfs_stats(nodes, prefix) == dfs_sorted(sort_nodes(nodes), prefix));
}

proof fn lemma_sorted_clean_paths(nodes: Seq<TreeNode>, prefix: Seq<char>)
    requires
        wf_forest(nodes),
        prefix.len() == 0 || clean_path(prefix),
    ensures
        forall|i: int|
            0 <= i < dfs_sorted(nodes, prefix).len() ==> clean_path(
                (#[trigger] dfs_sorted(nodes, prefix)[i]).path,
            ),
    decreases seq_count(nodes), 0int,
{
    if nodes.len() > 0 {
        let head = nodes[0];
        assert(wf_node(head));
        let st = stat_of(head, prefix);
        match head {
            TreeNode::File { name, .. } => lemma_clean_child(prefix, name@),
            TreeNode::Dir { name, .. } => lemma_clean_child(prefix, name@),
        }
        let sub = match head {
            TreeNode::Dir { name, children, .. } => dfs_stats(children@, child_path(prefix, name@)),
            TreeNode::File { .. } => Seq::<StatModel>::empty(),
        };
        lemma_node_count_pos(head);
        assert(seq_count(nodes) == node_count(head) + seq_count(nodes.skip(1)));
        match head {
            TreeNode::Dir { name, children, .. } => {
                lemma_wf_node_dir(head);
                assert(wf_forest(children@));
                lemma_clean_child(prefix, name@);
                lemma_clean_paths(children@, child_path(prefix, name@));
            },
            TreeNode::File { .. } => {},
        }
        assert(wf_forest(nodes.skip(1)));
        lemma_sorted_clean_paths(nodes.skip(1), prefix);
        let whole = dfs_sorted(nodes, prefix);
        assert(whole == seq![st] + sub + dfs_sorted(nodes.skip(1), prefix));
        assert forall|i: int| 0 <= i < whole.len() implies clean_path(
            (#[trigger] whole[i]).path,
        ) by {
            if i == 0 {
                assert(whole[0] == st);
            } else if i < 1 + sub.len() {
                assert(whole[i] == sub[i - 1]);
            } else {
                assert(whole[i] == dfs_sorted(nodes.skip(1), prefix)[i - 1 - sub.len()]);
            }
        }
    }
}

/// The stats a DiffCopy call announces: the Dockerfile alone when the
/// daemon asked for it by the `dir-name` header, the whole sorted tree
/// otherwise. A missing Dockerfile fails the call.
pub fn plan_stats(nodes: Vec<TreeNode>, dockerfile_only: bool) -> (r: Result<Vec<Stat>, BuildError>)
    ensures
        !dockerfile_only ==> (r matches Ok(v) && v.deep_view() == dfs_stats(
            nodes@,
            Seq::<char>::empty(),
        )),
        dockerfile_only ==> ({
            &&& (r is Ok) <==> (exists|i: int|
                0 <= i < nodes@.len() && is_dockerfile(#[trigger] nodes@[i]))
            &&& r matches Ok(v) ==> exists|i: int|
                {
                    &&& 0 <= i < nodes@.len()
                    &&& is_dockerfile(#[trigger] nodes@[i])
                    &&& v.deep_view() =~= seq![stat_of(nodes@[i], Seq::<char>::empty())]
                }
            &&& r matches Err(e) ==> e == BuildError::DockerfileMissing
        }),
{
    if dockerfile_only {
        dockerfile_stats(&nodes)
    } else {
        Ok(context_stats(nodes))
    }
}

/// Serves a local directory tree to the daemon over DiffCopy.
#[derive(Debug, Clone)]
pub struct FileSyncServer {
    root_path: String,
}

impl FileSyncServer {
    /// The root directory, as a spec value.
    pub closed spec fn spec_root(&self) -> Seq<char> {
        self.root_path@
    }

    /// A file sync server rooted at `root_path`.
    pub fn new(root_path: String) -> (r: FileSyncServer)
        ensures
            r.spec_root() == root_path@,
    {
        FileSyncServer { root_path }
    }

    /// The root directory being served.
    pub fn get_root_path(&self) -> (r: String)
        ensures
            r@ == self.spec_root(),
    {
        self.root_path.clone()
    }
}

} // verus!
