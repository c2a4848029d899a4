//! The wire data model of the tunneled protocols: the FileSync packet and
//! stat messages, the auxiliary request and reply messages, and their
//! protobuf encodings.

use crate::wire::{lemma_key_step, lemma_len_delim_step, lemma_skip_field_len,
    lemma_take_len_delim_len, lemma_take_varint_len, lemma_varint_roundtrip, read_len_delim,
    read_varint, skip_value, spec_key, spec_len_field, spec_msg_field, spec_skip_field,
    spec_str_field, spec_u32_field, spec_u64_field, spec_varint, string_from_utf8, take_len_delim,
    take_varint, write_len_field, write_msg_field, write_str_field, write_u32_field,
    write_u64_field, DecodeError};
use vstd::prelude::*;
use vstd::utf8::{decode_utf8, encode_utf8, encode_utf8_decode_utf8, encode_utf8_valid_utf8,
    valid_utf8};

verus! {

/// Packet kind: a stat record (or the end-of-stats marker).
pub const PACKET_STAT: u32 = 0;

/// Packet kind: a run of file bytes (or the end-of-file marker).
pub const PACKET_DATA: u32 = 1;

/// Packet kind: the end of the whole transfer.
pub const PACKET_FIN: u32 = 2;

/// Packet kind: a request for the file with a given id.
pub const PACKET_REQ: u32 = 3;

/// The file-type bits of a mode word.
pub const MODE_TYPE_MASK: u32 = 0o170000;

/// The file-type bits of a directory.
pub const MODE_DIR: u32 = 0o040000;

/// The file-type bits of a regular file.
pub const MODE_REG: u32 = 0o100000;

/// Metadata of one filesystem entry, as sent in a STAT packet.
#[derive(Debug, Clone)]
pub struct Stat {
    /// Relative path from the context root, with `/` separators.
    pub path: String,
    /// POSIX permission bits together with the file-type bits.
    pub mode: u32,
    pub uid: u32,
    pub gid: u32,
    /// Byte length for a file; zero for a directory.
    pub size: u64,
    pub mod_time: u64,
    /// Target of a symbolic link; empty here, links being out of scope.
    pub linkname: String,
    pub devmajor: u64,
    pub devminor: u64,
    /// Extended attributes, as name/value pairs.
    pub xattrs: Vec<(String, Vec<u8>)>,
}

/// The mathematical value of a `Stat`.
pub ghost struct StatModel {
    pub path: Seq<char>,
    pub mode: u32,
    pub uid: u32,
    pub gid: u32,
    pub size: u64,
    pub mod_time: u64,
    pub linkname: Seq<char>,
    pub devmajor: u64,
    pub devminor: u64,
    pub xattrs: Seq<(Seq<char>, Seq<u8>)>,
}

impl View for Stat {
    type V = StatModel;

    open spec fn view(&self) -> StatModel {
        StatModel {
            path: self.path@,
            mode: self.mode,
            uid: self.uid,
            gid: self.gid,
            size: self.size,
            mod_time: self.mod_time,
            linkname: self.linkname@,
            devmajor: self.devmajor,
            devminor: self.devminor,
            xattrs: self.xattrs@.map_values(|e: (String, Vec<u8>)| (e.0@, e.1@)),
        }
    }
}

impl DeepView for Stat {
    type V = StatModel;

    open spec fn deep_view(&self) -> StatModel {
        self@
    }
}

/// A stat model whose numeric and auxiliary fields are all zero or empty,
/// as synthesized for a freshly enumerated entry.
pub open spec fn plain_stat(path: Seq<char>, mode: u32, size: u64) -> StatModel {
    StatModel {
        path: path,
        mode: mode,
        uid: 0,
        gid: 0,
        size: size,
        mod_time: 0,
        linkname: Seq::empty(),
        devmajor: 0,
        devminor: 0,
        xattrs: Seq::empty(),
    }
}

/// One message of the FileSync sub-protocol.
#[derive(Debug, Clone)]
pub struct Packet {
    /// The packet kind, one of the four `PACKET_` values; other values
    /// are carried through and ignored by the transfer rules.
    pub ptype: u32,
    /// The stat record of a STAT packet; absent on the end-of-stats
    /// marker and on every other kind.
    pub stat: Option<Stat>,
    /// The entry id the packet speaks about.
    pub id: u32,
    /// The payload bytes of a DATA packet.
    pub data: Vec<u8>,
}

/// The mathematical value of a `Packet`.
pub ghost struct PacketModel {
    pub ptype: u32,
    pub stat: Option<StatModel>,
    pub id: u32,
    pub data: Seq<u8>,
}

impl View for Packet {
    type V = PacketModel;

    open spec fn view(&self) -> PacketModel {
        PacketModel {
            ptype: self.ptype,
            stat: match self.stat {
                Some(s) => Some(s@),
                None => None,
            },
            id: self.id,
            data: self.data@,
        }
    }
}

impl DeepView for Packet {
    type V = PacketModel;

    open spec fn deep_view(&self) -> PacketModel {
        self@
    }
}

/// A stat whose fields are all defaults, the starting point of a decode.
pub open spec fn default_stat() -> StatModel {
    plain_stat(Seq::empty(), 0, 0)
}

/// A packet whose fields are all defaults, the starting point of a decode.
pub open spec fn default_packet() -> PacketModel {
    PacketModel { ptype: 0, stat: None, id: 0, data: Seq::empty() }
}

/// The encoding of one extended-attribute entry: its name and value.
pub open spec fn spec_encode_xattr(k: Seq<char>, v: Seq<u8>) -> Seq<u8> {
    spec_str_field(1, k) + spec_len_field(2, v)
}

/// The encoding of an extended-attribute list: one embedded entry message
/// per pair, in order.
pub open spec fn spec_encode_xattrs(xs: Seq<(Seq<char>, Seq<u8>)>) -> Seq<u8>
    decreases xs.len(),
{
    if xs.len() == 0 {
        Seq::empty()
    } else {
        spec_msg_field(10, spec_encode_xattr(xs[0].0, xs[0].1)) + spec_encode_xattrs(xs.skip(1))
    }
}

/// The canonical encoding of a stat message: fields in number order,
/// defaults omitted.
pub open spec fn spec_encode_stat(m: StatModel) -> Seq<u8> {
    spec_str_field(1, m.path) + spec_u32_field(2, m.mode) + spec_u32_field(3, m.uid)
        + spec_u32_field(4, m.gid) + spec_u64_field(5, m.size) + spec_u64_field(6, m.mod_time)
        + spec_str_field(7, m.linkname) + spec_u64_field(8, m.devmajor) + spec_u64_field(
        9,
        m.devminor,
    ) + spec_encode_xattrs(m.xattrs)
}

/// The canonical encoding of a packet: fields in number order, defaults
/// omitted, the stat present exactly when the packet carries one.
pub open spec fn spec_encode_packet(m: PacketModel) -> Seq<u8> {
    spec_u32_field(1, m.ptype) + (match m.stat {
        Some(st) => spec_msg_field(2, spec_encode_stat(st)),
        None => Seq::empty(),
    }) + spec_u32_field(3, m.id) + spec_len_field(4, m.data)
}

/// Decode the fields of one extended-attribute entry, accumulating over
/// the given name and value.
#[verifier::opaque]
pub open spec fn dec_xattr_fields(s: Seq<u8>, k: Seq<char>, v: Seq<u8>) -> Option<
    (Seq<char>, Seq<u8>),
>
    decreases s.len(),
    via dec_xattr_fields_dec
{
    if s.len() == 0 {
        Some((k, v))
    } else {
        match take_varint(s) {
            None => None,
            Some((tag, r)) => if tag > u64::MAX {
                None
            } else {
                let f = tag / 8;
                let wt = tag % 8;
                if f == 1 && wt == 2 {
                    match take_len_delim(r) {
                        None => None,
                        Some((b, r2)) => if valid_utf8(b) {
                            dec_xattr_fields(r2, decode_utf8(b), v)
                        } else {
                            None
                        },
                    }
                } else if f == 2 && wt == 2 {
                    match take_len_delim(r) {
                        None => None,
                        Some((b, r2)) => dec_xattr_fields(r2, k, b),
                    }
                } else {
                    match spec_skip_field(wt, r) {
                        None => None,
                        Some(r2) => dec_xattr_fields(r2, k, v),
                    }
                }
            },
        }
    }
}

#[via_fn]
proof fn dec_xattr_fields_dec(s: Seq<u8>, k: Seq<char>, v: Seq<u8>) {
    lemma_take_varint_len(s);
    match take_varint(s) {
        Some((tag, r)) => {
            lemma_take_len_delim_len(r);
            lemma_skip_field_len(tag % 8, r);
        },
        None => {},
    }
}

/// Decode the fields of a stat message, accumulating over `acc`.
#[verifier::opaque]
pub open spec fn dec_stat_fields(s: Seq<u8>, acc: StatModel) -> Option<StatModel>
    decreases s.len(),
    via dec_stat_fields_dec
{
    if s.len() == 0 {
        Some(acc)
    } else {
        match take_varint(s) {
            None => None,
            Some((tag, r)) => if tag > u64::MAX {
                None
            } else {
                let f = tag / 8;
                let wt = tag % 8;
                if f == 1 && wt == 2 {
                    match take_len_delim(r) {
                        None => None,
                        Some((b, r2)) => if valid_utf8(b) {
                            dec_stat_fields(r2, StatModel { path: decode_utf8(b), ..acc })
                        } else {
                            None
                        },
                    }
                } else if f == 2 && wt == 0 {
                    match take_varint(r) {
                        None => None,
                        Some((n, r2)) => if n <= u32::MAX {
                            dec_stat_fields(r2, StatModel { mode: n as u32, ..acc })
                        } else {
                            None
                        },
                    }
                } else if f == 3 && wt == 0 {
                    match take_varint(r) {
                        None => None,
                        Some((n, r2)) => if n <= u32::MAX {
                            dec_stat_fields(r2, StatModel { uid: n as u32, ..acc })
                        } else {
                            None
                        },
                    }
                } else if f == 4 && wt == 0 {
                    match take_varint(r) {
                        None => None,
                        Some((n, r2)) => if n <= u32::MAX {
                            dec_stat_fields(r2, StatModel { gid: n as u32, ..acc })
                        } else {
                            None
                        },
                    }
                } else if f == 5 && wt == 0 {
                    match take_varint(r) {
                        None => None,
                        Some((n, r2)) => if n <= u64::MAX {
                            dec_stat_fields(r2, StatModel { size: n as u64, ..acc })
                        } else {
                            None
                        },
                    }
                } else if f == 6 && wt == 0 {
                    match take_varint(r) {
                        None => None,
                        Some((n, r2)) => if n <= u64::MAX {
                            dec_stat_fields(r2, StatModel { mod_time: n as u64, ..acc })
                        } else {
                            None
                        },
                    }
                } else if f == 7 && wt == 2 {
                    match take_len_delim(r) {
                        None => None,
                        Some((b, r2)) => if valid_utf8(b) {
                            dec_stat_fields(r2, StatModel { linkname: decode_utf8(b), ..acc })
                        } else {
                            None
                        },
                    }
                } else if f == 8 && wt == 0 {
                    match take_varint(r) {
                        None => None,
                        Some((n, r2)) => if n <= u64::MAX {
                            dec_stat_fields(r2, StatModel { devmajor: n as u64, ..acc })
                        } else {
                            None
                        },
                    }
                } else if f == 9 && wt == 0 {
                    match take_varint(r) {
                        None => None,
                        Some((n, r2)) => if n <= u64::MAX {
                            dec_stat_fields(r2, StatModel { devminor: n as u64, ..acc })
                        } else {
                            None
                        },
                    }
                } else if f == 10 && wt == 2 {
                    match take_len_delim(r) {
                        None => None,
                        Some((b, r2)) => match dec_xattr_fields(b, Seq::empty(), Seq::empty()) {
                            None => None,
                            Some(e) => dec_stat_fields(
                                r2,
                                StatModel { xattrs: acc.xattrs.push(e), ..acc },
                            ),
                        },
                    }
                } else {
                    match spec_skip_field(wt, r) {
                        None => None,
                        Some(r2) => dec_stat_fields(r2, acc),
                    }
                }
            },
        }
    }
}

#[via_fn]
proof fn dec_stat_fields_dec(s: Seq<u8>, acc: StatModel) {
    lemma_take_varint_len(s);
    match take_varint(s) {
        Some((tag, r)) => {
            lemma_take_varint_len(r);
            lemma_take_len_delim_len(r);
            lemma_skip_field_len(tag % 8, r);
        },
        None => {},
    }
}

/// What a stat message's bytes mean, or nothing when they are not one.
pub open spec fn spec_decode_stat(s: Seq<u8>) -> Option<StatModel> {
    dec_stat_fields(s, default_stat())
}

/// Decode the fields of a packet, accumulating over `acc`.
#[verifier::opaque]
pub open spec fn dec_packet_fields(s: Seq<u8>, acc: PacketModel) -> Option<PacketModel>
    decreases s.len(),
    via dec_packet_fields_dec
{
    if s.len() == 0 {
        Some(acc)
    } else {
        match take_varint(s) {
            None => None,
            Some((tag, r)) => if tag > u64::MAX {
                None
            } else {
                let f = tag / 8;
                let wt = tag % 8;
                if f == 1 && wt == 0 {
                    match take_varint(r) {
                        None => None,
                        Some((n, r2)) => if n <= u32::MAX {
                            dec_packet_fields(r2, PacketModel { ptype: n as u32, ..acc })
                        } else {
                            None
                        },
                    }
                } else if f == 2 && wt == 2 {
                    match take_len_delim(r) {
                        None => None,
                        Some((b, r2)) => match spec_decode_stat(b) {
                            None => None,
                            Some(st) => dec_packet_fields(
                                r2,
                                PacketModel { stat: Some(st), ..acc },
                            ),
                        },
                    }
                } else if f == 3 && wt == 0 {
                    match take_varint(r) {
                        None => None,
                        Some((n, r2)) => if n <= u32::MAX {
                            dec_packet_fields(r2, PacketModel { id: n as u32, ..acc })
                        } else {
                            None
                        },
                    }
                } else if f == 4 && wt == 2 {
                    match take_len_delim(r) {
                        None => None,
                        Some((b, r2)) => dec_packet_fields(r2, PacketModel { data: b, ..acc }),
                    }
                } else {
                    match spec_skip_field(wt, r) {
                        None => None,
                        Some(r2) => dec_packet_fields(r2, acc),
                    }
                }
            },
        }
    }
}

#[via_fn]
proof fn dec_packet_fields_dec(s: Seq<u8>, acc: PacketModel) {
    lemma_take_varint_len(s);
    match take_varint(s) {
        Some((tag, r)) => {
            lemma_take_varint_len(r);
            lemma_take_len_delim_len(r);
            lemma_skip_field_len(tag % 8, r);
        },
        None => {},
    }
}

/// What a packet's bytes mean, or nothing when they are not one.
pub open spec fn spec_decode_packet(s: Seq<u8>) -> Option<PacketModel> {
    dec_packet_fields(s, default_packet())
}

/// Appending one entry extends an encoded attribute list at its end.
proof fn lemma_encode_xattrs_push(xs: Seq<(Seq<char>, Seq<u8>)>, e: (Seq<char>, Seq<u8>))
    ensures
        spec_encode_xattrs(xs.push(e)) == spec_encode_xattrs(xs) + spec_msg_field(
            10,
            spec_encode_xattr(e.0, e.1),
        ),
    decreases xs.len(),
{
    if xs.len() == 0 {
        assert(xs.push(e)[0] == e);
        assert(xs.push(e).skip(1) =~= Seq::<(Seq<char>, Seq<u8>)>::empty());
        assert(spec_encode_xattrs(Seq::<(Seq<char>, Seq<u8>)>::empty()) =~= Seq::<u8>::empty());
        assert(spec_encode_xattrs(xs.push(e)) =~= spec_msg_field(
            10,
            spec_encode_xattr(e.0, e.1),
        ));
        assert(spec_encode_xattrs(xs) + spec_msg_field(10, spec_encode_xattr(e.0, e.1))
            =~= spec_msg_field(10, spec_encode_xattr(e.0, e.1)));
    } else {
        assert(xs.push(e)[0] == xs[0]);
        assert(xs.push(e).skip(1) =~= xs.skip(1).push(e));
        lemma_encode_xattrs_push(xs.skip(1), e);
        assert(spec_encode_xattrs(xs.push(e)) == spec_msg_field(
            10,
            spec_encode_xattr(xs[0].0, xs[0].1),
        ) + (spec_encode_xattrs(xs.skip(1)) + spec_msg_field(10, spec_encode_xattr(e.0, e.1))));
        assert(spec_msg_field(10, spec_encode_xattr(xs[0].0, xs[0].1)) + (spec_encode_xattrs(
            xs.skip(1),
        ) + spec_msg_field(10, spec_encode_xattr(e.0, e.1))) =~= (spec_msg_field(
            10,
            spec_encode_xattr(xs[0].0, xs[0].1),
        ) + spec_encode_xattrs(xs.skip(1))) + spec_msg_field(10, spec_encode_xattr(e.0, e.1)));
    }
}

/// The encoded bytes of a stat message.
pub fn encode_stat(st: &Stat) -> (r: Vec<u8>)
    ensures
        r@ == spec_encode_stat(st@),
{
    let mut out: Vec<u8> = Vec::new();
    proof {
        assert(out@ =~= Seq::<u8>::empty());
    }
    write_str_field(&mut out, 1, st.path.as_str());
    write_u32_field(&mut out, 2, st.mode);
    write_u32_field(&mut out, 3, st.uid);
    write_u32_field(&mut out, 4, st.gid);
    write_u64_field(&mut out, 5, st.size);
    write_u64_field(&mut out, 6, st.mod_time);
    write_str_field(&mut out, 7, st.linkname.as_str());
    write_u64_field(&mut out, 8, st.devmajor);
    write_u64_field(&mut out, 9, st.devminor);
    let ghost head = out@;
    let ghost xs = st@.xattrs;
    let mut i: usize = 0;
    proof {
        assert(xs.take(0) =~= Seq::<(Seq<char>, Seq<u8>)>::empty());
        assert(out@ =~= head + spec_encode_xattrs(xs.take(0)));
    }
    while i < st.xattrs.len()
        invariant
            0 <= i <= st.xattrs@.len(),
            xs == st@.xattrs,
            xs.len() == st.xattrs@.len(),
            out@ == head + spec_encode_xattrs(xs.take(i as int)),
        decreases st.xattrs@.len() - i,
    {
        let mut entry: Vec<u8> = Vec::new();
        proof {
            assert(entry@ =~= Seq::<u8>::empty());
        }
        write_str_field(&mut entry, 1, st.xattrs[i].0.as_str());
        write_len_field(&mut entry, 2, &st.xattrs[i].1);
        proof {
            assert(xs[i as int] == (st.xattrs@[i as int].0@, st.xattrs@[i as int].1@));
            assert(entry@ =~= spec_encode_xattr(xs[i as int].0, xs[i as int].1));
        }
        write_msg_field(&mut out, 10, &entry);
        proof {
            lemma_encode_xattrs_push(xs.take(i as int), xs[i as int]);
            assert(xs.take(i + 1) =~= xs.take(i as int).push(xs[i as int]));
            assert(out@ =~= head + spec_encode_xattrs(xs.take(i + 1)));
        }
        i += 1;
    }
    proof {
        assert(xs.take(xs.len() as int) =~= xs);
        assert(out@ =~= spec_encode_stat(st@));
    }
    out
}

/// The encoded bytes of a packet.
pub fn encode_packet(p: &Packet) -> (r: Vec<u8>)
    ensures
        r@ == spec_encode_packet(p@),
{
    let mut out: Vec<u8> = Vec::new();
    proof {
        assert(out@ =~= Seq::<u8>::empty());
    }
    write_u32_field(&mut out, 1, p.ptype);
    match &p.stat {
        Some(st) => {
            let sb = encode_stat(st);
            write_msg_field(&mut out, 2, &sb);
        },
        None => {},
    }
    write_u32_field(&mut out, 3, p.id);
    write_len_field(&mut out, 4, &p.data);
    proof {
        assert(out@ =~= spec_encode_packet(p@));
    }
    out
}

/// Decode one extended-attribute entry message.
fn decode_xattr_entry(buf: &Vec<u8>) -> (r: Result<(String, Vec<u8>), DecodeError>)
    ensures
        r matches Ok(e) ==> dec_xattr_fields(buf@, Seq::empty(), Seq::empty()) == Some(
            (e.0@, e.1@),
        ),
        r is Err ==> dec_xattr_fields(buf@, Seq::empty(), Seq::empty()) is None,
{
    broadcast use vstd::utf8::encode_utf8_decode_utf8;
    broadcast use vstd::utf8::encode_utf8_valid_utf8;

    let mut key = String::new();
    let mut value: Vec<u8> = Vec::new();
    let mut pos: usize = 0;
    let len = buf.len();
    proof {
        reveal(dec_xattr_fields);
        assert(buf@.skip(0) =~= buf@);
        assert(value@ =~= Seq::<u8>::empty());
    }
    while pos < len
        invariant
            0 <= pos <= len,
            len == buf@.len(),
            dec_xattr_fields(buf@, Seq::empty(), Seq::empty()) == dec_xattr_fields(
                buf@.skip(pos as int),
                key@,
                value@,
            ),
        decreases len - pos,
    {
        proof {
            reveal(dec_xattr_fields);
        }
        let ghost s = buf@.skip(pos as int);
        let (tag, p1) = match read_varint(buf, pos) {
            Ok(p) => p,
            Err(e) => {
                return Err(e);
            },
        };
        let f = tag / 8;
        let wt = tag % 8;
        if f == 1 && wt == 2 {
            let (b, p2) = match read_len_delim(buf, p1) {
                Ok(p) => p,
                Err(e) => {
                    return Err(e);
                },
            };
            let ghost bv = b@;
            match string_from_utf8(b) {
                Some(k2) => {
                    proof {
                        encode_utf8_decode_utf8(k2@);
                        assert(decode_utf8(bv) == k2@);
                    }
                    key = k2;
                },
                None => {
                    return Err(DecodeError::Malformed);
                },
            }
            pos = p2;
        } else if f == 2 && wt == 2 {
            let (b, p2) = match read_len_delim(buf, p1) {
                Ok(p) => p,
                Err(e) => {
                    return Err(e);
                },
            };
            value = b;
            pos = p2;
        } else {
            let np = match skip_value(buf, p1, wt) {
                Ok(np) => np,
                Err(e) => {
                    return Err(e);
                },
            };
            pos = np;
        }
    }
    proof {
        reveal(dec_xattr_fields);
        assert(buf@.skip(len as int) =~= Seq::<u8>::empty());
    }
    Ok((key, value))
}

/// Decode a stat message from its exact bytes.
pub fn decode_stat(buf: &Vec<u8>) -> (r: Result<Stat, DecodeError>)
    ensures
        r matches Ok(st) ==> spec_decode_stat(buf@) == Some(st@),
        r is Err ==> spec_decode_stat(buf@) is None,
{
    broadcast use vstd::utf8::encode_utf8_decode_utf8;
    broadcast use vstd::utf8::encode_utf8_valid_utf8;

    let mut cur = Stat {
        path: String::new(),
        mode: 0,
        uid: 0,
        gid: 0,
        size: 0,
        mod_time: 0,
        linkname: String::new(),
        devmajor: 0,
        devminor: 0,
        xattrs: Vec::new(),
    };
    let mut pos: usize = 0;
    let len = buf.len();
    proof {
        reveal(dec_stat_fields);
        assert(cur@.xattrs =~= Seq::<(Seq<char>, Seq<u8>)>::empty());
        assert(cur@ == default_stat());
        assert(buf@.skip(0) =~= buf@);
    }
    while pos < len
        invariant
            0 <= pos <= len,
            len == buf@.len(),
            spec_decode_stat(buf@) == dec_stat_fields(buf@.skip(pos as int), cur@),
        decreases len - pos,
    {
        proof {
            reveal(dec_stat_fields);
        }
        let ghost pre = cur@;
        let (tag, p1) = match read_varint(buf, pos) {
            Ok(p) => p,
            Err(e) => {
                return Err(e);
            },
        };
        let f = tag / 8;
        let wt = tag % 8;
        if f == 1 && wt == 2 {
            let (b, p2) = match read_len_delim(buf, p1) {
                Ok(p) => p,
                Err(e) => {
                    return Err(e);
                },
            };
            let ghost bv = b@;
            match string_from_utf8(b) {
                Some(s2) => {
                    proof {
                        encode_utf8_decode_utf8(s2@);
                        assert(decode_utf8(bv) == s2@);
                    }
                    cur.path = s2;
                    proof {
                        assert(cur@ == (StatModel { path: decode_utf8(bv), ..pre }));
                    }
                },
                None => {
                    return Err(DecodeError::Malformed);
                },
            }
            pos = p2;
        } else if f == 2 && wt == 0 {
            let (v, p2) = match read_varint(buf, p1) {
                Ok(p) => p,
                Err(e) => {
                    return Err(e);
                },
            };
            if v > u32::MAX as u64 {
                return Err(DecodeError::Malformed);
            }
            cur.mode = v as u32;
            pos = p2;
        } else if f == 3 && wt == 0 {
            let (v, p2) = match read_varint(buf, p1) {
                Ok(p) => p,
                Err(e) => {
                    return Err(e);
                },
            };
            if v > u32::MAX as u64 {
                return Err(DecodeError::Malformed);
            }
            cur.uid = v as u32;
            pos = p2;
        } else if f == 4 && wt == 0 {
            let (v, p2) = match read_varint(buf, p1) {
                Ok(p) => p,
                Err(e) => {
                    return Err(e);
                },
            };
            if v > u32::MAX as u64 {
                return Err(DecodeError::Malformed);
            }
            cur.gid = v as u32;
            pos = p2;
        } else if f == 5 && wt == 0 {
            let (v, p2) = match read_varint(buf, p1) {
                Ok(p) => p,
                Err(e) => {
                    return Err(e);
                },
            };
            cur.size = v;
            pos = p2;
        } else if f == 6 && wt == 0 {
            let (v, p2) = match read_varint(buf, p1) {
                Ok(p) => p,
                Err(e) => {
                    return Err(e);
                },
            };
            cur.mod_time = v;
            pos = p2;
        } else if f == 7 && wt == 2 {
            let (b, p2) = match read_len_delim(buf, p1) {
                Ok(p) => p,
                Err(e) => {
                    return Err(e);
                },
            };
            let ghost bv = b@;
            match string_from_utf8(b) {
                Some(s2) => {
                    proof {
                        encode_utf8_decode_utf8(s2@);
                        assert(decode_utf8(bv) == s2@);
                    }
                    cur.linkname = s2;
                },
                None => {
                    return Err(DecodeError::Malformed);
                },
            }
            pos = p2;
        } else if f == 8 && wt == 0 {
            let (v, p2) = match read_varint(buf, p1) {
                Ok(p) => p,
                Err(e) => {
                    return Err(e);
                },
            };
            cur.devmajor = v;
            pos = p2;
        } else if f == 9 && wt == 0 {
            let (v, p2) = match read_varint(buf, p1) {
                Ok(p) => p,
                Err(e) => {
                    return Err(e);
                },
            };
            cur.devminor = v;
            pos = p2;
        } else if f == 10 && wt == 2 {
            let (b, p2) = match read_len_delim(buf, p1) {
                Ok(p) => p,
                Err(e) => {
                    return Err(e);
                },
            };
            let entry = match decode_xattr_entry(&b) {
                Ok(e) => e,
                Err(e) => {
                    return Err(e);
                },
            };
            let ghost pre_x = cur@.xattrs;
            cur.xattrs.push(entry);
            proof {
                assert(cur@.xattrs =~= pre_x.push((entry.0@, entry.1@)));
                assert(cur@ == (StatModel { xattrs: pre.xattrs.push((entry.0@, entry.1@)), ..pre }));
            }
            pos = p2;
        } else {
            let np = match skip_value(buf, p1, wt) {
                Ok(np) => np,
                Err(e) => {
                    return Err(e);
                },
            };
            pos = np;
        }
    }
    proof {
        reveal(dec_stat_fields);
        assert(buf@.skip(len as int) =~= Seq::<u8>::empty());
    }
    Ok(cur)
}

/// Decode a packet from its exact bytes.
pub fn decode_packet(buf: &Vec<u8>) -> (r: Result<Packet, DecodeError>)
    ensures
        r matches Ok(p) ==> spec_decode_packet(buf@) == Some(p@),
        r is Err ==> spec_decode_packet(buf@) is None,
{
    let mut cur = Packet { ptype: 0, stat: None, id: 0, data: Vec::new() };
    let mut pos: usize = 0;
    let len = buf.len();
    proof {
        reveal(dec_packet_fields);
        assert(cur@.data =~= Seq::<u8>::empty());
        assert(cur@ == default_packet());
        assert(buf@.skip(0) =~= buf@);
    }
    while pos < len
        invariant
            0 <= pos <= len,
            len == buf@.len(),
            spec_decode_packet(buf@) == dec_packet_fields(buf@.skip(pos as int), cur@),
        decreases len - pos,
    {
        proof {
            reveal(dec_packet_fields);
        }
        let ghost pre = cur@;
        let (tag, p1) = match read_varint(buf, pos) {
            Ok(p) => p,
            Err(e) => {
                return Err(e);
            },
        };
        let f = tag / 8;
        let wt = tag % 8;
        if f == 1 && wt == 0 {
            let (v, p2) = match read_varint(buf, p1) {
                Ok(p) => p,
                Err(e) => {
                    return Err(e);
                },
            };
            if v > u32::MAX as u64 {
                return Err(DecodeError::Malformed);
            }
            cur.ptype = v as u32;
            pos = p2;
        } else if f == 2 && wt == 2 {
            let (b, p2) = match read_len_delim(buf, p1) {
                Ok(p) => p,
                Err(e) => {
                    return Err(e);
                },
            };
            let st = match decode_stat(&b) {
                Ok(st) => st,
                Err(e) => {
                    return Err(e);
                },
            };
            cur.stat = Some(st);
            pos = p2;
        } else if f == 3 && wt == 0 {
            let (v, p2) = match read_varint(buf, p1) {
                Ok(p) => p,
                Err(e) => {
                    return Err(e);
                },
            };
            if v > u32::MAX as u64 {
                return Err(DecodeError::Malformed);
            }
            cur.id = v as u32;
            pos = p2;
        } else if f == 4 && wt == 2 {
            let (b, p2) = match read_len_delim(buf, p1) {
                Ok(p) => p,
                Err(e) => {
                    return Err(e);
                },
            };
            cur.data = b;
            pos = p2;
        } else {
            let np = match skip_value(buf, p1, wt) {
                Ok(np) => np,
                Err(e) => {
                    return Err(e);
                },
            };
            pos = np;
        }
    }
    proof {
        reveal(dec_packet_fields);
        assert(buf@.skip(len as int) =~= Seq::<u8>::empty());
    }
    Ok(cur)
}

/// Decoding the encoding of an attribute entry gives the entry back.
proof fn lemma_xattr_roundtrip(k: Seq<char>, v: Seq<u8>)
    ensures
        dec_xattr_fields(spec_encode_xattr(k, v), Seq::empty(), Seq::empty()) == Some((k, v)),
{
    broadcast use vstd::utf8::encode_utf8_valid_utf8;

    reveal(dec_xattr_fields);
    let ek = encode_utf8(k);
    let s2 = spec_len_field(2, v);
    let e = spec_encode_xattr(k, v);
    if ek.len() == 0 {
        encode_utf8_decode_utf8(k);
        assert(decode_utf8(Seq::<u8>::empty()) =~= Seq::<char>::empty());
        assert(k =~= Seq::<char>::empty());
        assert(e =~= s2);
    } else {
        assert(e =~= spec_key(1, 2) + (spec_varint(ek.len()) + ek + s2));
        lemma_key_step(1, 2, spec_varint(ek.len()) + ek + s2);
        lemma_len_delim_step(ek, s2);
        encode_utf8_decode_utf8(k);
        assert(dec_xattr_fields(e, Seq::empty(), Seq::empty()) == dec_xattr_fields(
            s2,
            k,
            Seq::empty(),
        ));
    }
    if v.len() == 0 {
        assert(s2 =~= Seq::<u8>::empty());
        assert(dec_xattr_fields(s2, k, Seq::empty()) == Some((k, Seq::<u8>::empty())));
        assert(v =~= Seq::<u8>::empty());
    } else {
        assert(spec_varint(v.len()) + v + Seq::<u8>::empty() =~= spec_varint(v.len()) + v);
        assert(s2 =~= spec_key(2, 2) + (spec_varint(v.len()) + v + Seq::<u8>::empty()));
        lemma_key_step(2, 2, spec_varint(v.len()) + v + Seq::<u8>::empty());
        lemma_len_delim_step(v, Seq::empty());
        assert(dec_xattr_fields(s2, k, Seq::empty()) == dec_xattr_fields(
            Seq::<u8>::empty(),
            k,
            v,
        ));
    }
}

/// Decoding an encoded attribute list appends its entries, in order.
proof fn lemma_dec_xattrs(xs: Seq<(Seq<char>, Seq<u8>)>, acc: StatModel)
    ensures
        dec_stat_fields(spec_encode_xattrs(xs), acc) == Some(
            StatModel { xattrs: acc.xattrs + xs, ..acc },
        ),
    decreases xs.len(),
{
    reveal(dec_stat_fields);
    if xs.len() == 0 {
        assert(spec_encode_xattrs(xs) =~= Seq::<u8>::empty());
        assert(acc.xattrs + xs =~= acc.xattrs);
        assert((StatModel { xattrs: acc.xattrs + xs, ..acc }) == acc);
    } else {
        let eb = spec_encode_xattr(xs[0].0, xs[0].1);
        let rest = spec_encode_xattrs(xs.skip(1));
        let e = spec_encode_xattrs(xs);
        assert(e == spec_msg_field(10, eb) + rest);
        assert(e =~= spec_key(10, 2) + (spec_varint(eb.len()) + eb + rest));
        lemma_key_step(10, 2, spec_varint(eb.len()) + eb + rest);
        lemma_len_delim_step(eb, rest);
        lemma_xattr_roundtrip(xs[0].0, xs[0].1);
        assert(xs[0] == (xs[0].0, xs[0].1));
        let acc2 = StatModel { xattrs: acc.xattrs.push(xs[0]), ..acc };
        assert(dec_stat_fields(e, acc) == dec_stat_fields(rest, acc2));
        lemma_dec_xattrs(xs.skip(1), acc2);
        assert(acc.xattrs.push(xs[0]) + xs.skip(1) =~= acc.xattrs + xs);
        assert((StatModel { xattrs: acc2.xattrs + xs.skip(1), ..acc2 }) == (StatModel {
            xattrs: acc.xattrs + xs,
            ..acc
        }));
    }
}

/// One varint field consumed by the stat decoder.
proof fn stat_step_u32(f: nat, v: u32, rest: Seq<u8>, acc: StatModel)
    requires
        f == 2 || f == 3 || f == 4,
        v != 0,
    ensures
        f == 2 ==> dec_stat_fields(spec_u32_field(f, v) + rest, acc) == dec_stat_fields(
            rest,
            StatModel { mode: v, ..acc },
        ),
        f == 3 ==> dec_stat_fields(spec_u32_field(f, v) + rest, acc) == dec_stat_fields(
            rest,
            StatModel { uid: v, ..acc },
        ),
        f == 4 ==> dec_stat_fields(spec_u32_field(f, v) + rest, acc) == dec_stat_fields(
            rest,
            StatModel { gid: v, ..acc },
        ),
{
    reveal(dec_stat_fields);
    assert(spec_u32_field(f, v) + rest =~= spec_key(f, 0) + (spec_varint(v as nat) + rest));
    lemma_key_step(f, 0, spec_varint(v as nat) + rest);
    lemma_varint_roundtrip(v as nat, rest);
}

/// One 64-bit varint field consumed by the stat decoder.
proof fn stat_step_u64(f: nat, v: u64, rest: Seq<u8>, acc: StatModel)
    requires
        f == 5 || f == 6 || f == 8 || f == 9,
        v != 0,
    ensures
        f == 5 ==> dec_stat_fields(spec_u64_field(f, v) + rest, acc) == dec_stat_fields(
            rest,
            StatModel { size: v, ..acc },
        ),
        f == 6 ==> dec_stat_fields(spec_u64_field(f, v) + rest, acc) == dec_stat_fields(
            rest,
            StatModel { mod_time: v, ..acc },
        ),
        f == 8 ==> dec_stat_fields(spec_u64_field(f, v) + rest, acc) == dec_stat_fields(
            rest,
            StatModel { devmajor: v, ..acc },
        ),
        f == 9 ==> dec_stat_fields(spec_u64_field(f, v) + rest, acc) == dec_stat_fields(
            rest,
            StatModel { devminor: v, ..acc },
        ),
{
    reveal(dec_stat_fields);
    assert(spec_u64_field(f, v) + rest =~= spec_key(f, 0) + (spec_varint(v as nat) + rest));
    lemma_key_step(f, 0, spec_varint(v as nat) + rest);
    lemma_varint_roundtrip(v as nat, rest);
}

/// One string field consumed by the stat decoder.
proof fn stat_step_str(f: nat, t: Seq<char>, rest: Seq<u8>, acc: StatModel)
    requires
        f == 1 || f == 7,
        encode_utf8(t).len() != 0,
    ensures
        f == 1 ==> dec_stat_fields(spec_str_field(f, t) + rest, acc) == dec_stat_fields(
            rest,
            StatModel { path: t, ..acc },
        ),
        f == 7 ==> dec_stat_fields(spec_str_field(f, t) + rest, acc) == dec_stat_fields(
            rest,
            StatModel { linkname: t, ..acc },
        ),
{
    broadcast use vstd::utf8::encode_utf8_valid_utf8;

    reveal(dec_stat_fields);
    let et = encode_utf8(t);
    assert(spec_str_field(f, t) + rest =~= spec_key(f, 2) + (spec_varint(et.len()) + et + rest));
    lemma_key_step(f, 2, spec_varint(et.len()) + et + rest);
    lemma_len_delim_step(et, rest);
    encode_utf8_decode_utf8(t);
}

/// An empty UTF-8 encoding comes only from the empty text.
proof fn lemma_empty_utf8(t: Seq<char>)
    requires
        encode_utf8(t).len() == 0,
    ensures
        t == Seq::<char>::empty(),
{
    encode_utf8_decode_utf8(t);
    assert(encode_utf8(t) =~= Seq::<u8>::empty());
    assert(decode_utf8(Seq::<u8>::empty()) =~= Seq::<char>::empty());
}

/// Decoding the encoded tail of a stat message, from the size field on,
/// fills those fields in over an accumulator whose own tail is default.
#[verifier::spinoff_prover]
proof fn lemma_stat_tail(m: StatModel, acc: StatModel)
    requires
        acc.size == 0,
        acc.mod_time == 0,
        acc.linkname == Seq::<char>::empty(),
        acc.devmajor == 0,
        acc.devminor == 0,
    ensures
        dec_stat_fields(
            spec_u64_field(5, m.size) + spec_u64_field(6, m.mod_time) + spec_str_field(
                7,
                m.linkname,
            ) + spec_u64_field(8, m.devmajor) + spec_u64_field(9, m.devminor) + spec_encode_xattrs(
                m.xattrs,
            ),
            acc,
        ) == Some(
            StatModel {
                size: m.size,
                mod_time: m.mod_time,
                linkname: m.linkname,
                devmajor: m.devmajor,
                devminor: m.devminor,
                xattrs: acc.xattrs + m.xattrs,
                ..acc
            },
        ),
{
    let el = encode_utf8(m.linkname);
    let s10 = spec_encode_xattrs(m.xattrs);
    let s9 = spec_u64_field(9, m.devminor) + s10;
    let s8 = spec_u64_field(8, m.devmajor) + s9;
    let s7 = spec_str_field(7, m.linkname) + s8;
    let s6 = spec_u64_field(6, m.mod_time) + s7;
    let s5 = spec_u64_field(5, m.size) + s6;
    assert(spec_u64_field(5, m.size) + spec_u64_field(6, m.mod_time) + spec_str_field(
        7,
        m.linkname,
    ) + spec_u64_field(8, m.devmajor) + spec_u64_field(9, m.devminor) + spec_encode_xattrs(
        m.xattrs,
    ) =~= s5);
    let a5 = StatModel { size: m.size, ..acc };
    let a6 = StatModel { mod_time: m.mod_time, ..a5 };
    let a7 = StatModel { linkname: m.linkname, ..a6 };
    let a8 = StatModel { devmajor: m.devmajor, ..a7 };
    let a9 = StatModel { devminor: m.devminor, ..a8 };
    if m.size == 0 {
        assert(s5 =~= s6);
        assert(a5 == acc);
    } else {
        stat_step_u64(5, m.size, s6, acc);
    }
    if m.mod_time == 0 {
        assert(s6 =~= s7);
        assert(a6 == a5);
    } else {
        stat_step_u64(6, m.mod_time, s7, a5);
    }
    if el.len() == 0 {
        lemma_empty_utf8(m.linkname);
        assert(s7 =~= s8);
        assert(a7 == a6);
    } else {
        stat_step_str(7, m.linkname, s8, a6);
    }
    if m.devmajor == 0 {
        assert(s8 =~= s9);
        assert(a8 == a7);
    } else {
        stat_step_u64(8, m.devmajor, s9, a7);
    }
    if m.devminor == 0 {
        assert(s9 =~= s10);
        assert(a9 == a8);
    } else {
        stat_step_u64(9, m.devminor, s10, a8);
    }
    lemma_dec_xattrs(m.xattrs, a9);
}

/// The encoding of a stat, re-grouped so the first field leads.
#[verifier::spinoff_prover]
proof fn lemma_stat_shape(m: StatModel)
    ensures
        spec_encode_stat(m) == spec_str_field(1, m.path) + (spec_u32_field(2, m.mode)
            + (spec_u32_field(3, m.uid) + (spec_u32_field(4, m.gid) + (spec_u64_field(5, m.size)
            + spec_u64_field(6, m.mod_time) + spec_str_field(7, m.linkname) + spec_u64_field(
            8,
            m.devmajor,
        ) + spec_u64_field(9, m.devminor) + spec_encode_xattrs(m.xattrs))))),
{
    let f1 = spec_str_field(1, m.path);
    let f2 = spec_u32_field(2, m.mode);
    let f3 = spec_u32_field(3, m.uid);
    let f4 = spec_u32_field(4, m.gid);
    let f5 = spec_u64_field(5, m.size);
    let f6 = spec_u64_field(6, m.mod_time);
    let f7 = spec_str_field(7, m.linkname);
    let f8 = spec_u64_field(8, m.devmajor);
    let f9 = spec_u64_field(9, m.devminor);
    let f10 = spec_encode_xattrs(m.xattrs);
    let a4 = f1 + f2 + f3 + f4;
    let t = f5 + f6 + f7 + f8 + f9 + f10;
    assert(a4 + f5 =~= a4 + f5);
    assert(a4 + f5 + f6 =~= a4 + (f5 + f6));
    assert(a4 + (f5 + f6) + f7 =~= a4 + (f5 + f6 + f7));
    assert(a4 + (f5 + f6 + f7) + f8 =~= a4 + (f5 + f6 + f7 + f8));
    assert(a4 + (f5 + f6 + f7 + f8) + f9 =~= a4 + (f5 + f6 + f7 + f8 + f9));
    assert(a4 + (f5 + f6 + f7 + f8 + f9) + f10 =~= a4 + t);
    assert(spec_encode_stat(m) == a4 + f5 + f6 + f7 + f8 + f9 + f10);
    assert(spec_encode_stat(m) == a4 + t);
    assert(a4 + t =~= f1 + (f2 + (f3 + (f4 + t))));
}

/// Decoding the encoding of any stat message gives the stat back.
#[verifier::spinoff_prover]
#[verifier::rlimit(100)]
pub proof fn lemma_stat_roundtrip(m: StatModel)
    ensures
        spec_decode_stat(spec_encode_stat(m)) == Some(m),
{
    let ep = encode_utf8(m.path);
    let tail = spec_u64_field(5, m.size) + spec_u64_field(6, m.mod_time) + spec_str_field(
        7,
        m.linkname,
    ) + spec_u64_field(8, m.devmajor) + spec_u64_field(9, m.devminor) + spec_encode_xattrs(
        m.xattrs,
    );
    let s4 = spec_u32_field(4, m.gid) + tail;
    let s3 = spec_u32_field(3, m.uid) + s4;
    let s2 = spec_u32_field(2, m.mode) + s3;
    let s1 = spec_str_field(1, m.path) + s2;
    lemma_stat_shape(m);
    assert(spec_encode_stat(m) == s1);

    let a0 = default_stat();
    let a1 = StatModel { path: m.path, ..a0 };
    let a2 = StatModel { mode: m.mode, ..a1 };
    let a3 = StatModel { uid: m.uid, ..a2 };
    let a4 = StatModel { gid: m.gid, ..a3 };

    if ep.len() == 0 {
        lemma_empty_utf8(m.path);
        assert(s1 =~= s2);
        assert(a1 == a0);
    } else {
        stat_step_str(1, m.path, s2, a0);
    }
    if m.mode == 0 {
        assert(s2 =~= s3);
        assert(a2 == a1);
    } else {
        stat_step_u32(2, m.mode, s3, a1);
    }
    if m.uid == 0 {
        assert(s3 =~= s4);
        assert(a3 == a2);
    } else {
        stat_step_u32(3, m.uid, s4, a2);
    }
    if m.gid == 0 {
        assert(s4 =~= tail);
        assert(a4 == a3);
    } else {
        stat_step_u32(4, m.gid, tail, a3);
    }
    lemma_stat_tail(m, a4);
    assert(a4.xattrs + m.xattrs =~= m.xattrs);
    assert((StatModel {
        size: m.size,
        mod_time: m.mod_time,
        linkname: m.linkname,
        devmajor: m.devmajor,
        devminor: m.devminor,
        xattrs: a4.xattrs + m.xattrs,
        ..a4
    }) == m);
}

/// One varint field consumed by the packet decoder.
proof fn packet_step_u32(f: nat, v: u32, rest: Seq<u8>, acc: PacketModel)
    requires
        f == 1 || f == 3,
        v != 0,
    ensures
        f == 1 ==> dec_packet_fields(spec_u32_field(f, v) + rest, acc) == dec_packet_fields(
            rest,
            PacketModel { ptype: v, ..acc },
        ),
        f == 3 ==> dec_packet_fields(spec_u32_field(f, v) + rest, acc) == dec_packet_fields(
            rest,
            PacketModel { id: v, ..acc },
        ),
{
    reveal(dec_packet_fields);
    assert(spec_u32_field(f, v) + rest =~= spec_key(f, 0) + (spec_varint(v as nat) + rest));
    lemma_key_step(f, 0, spec_varint(v as nat) + rest);
    lemma_varint_roundtrip(v as nat, rest);
}

/// Encoding then decoding any FileSync packet yields an equal packet.
#[verifier::spinoff_prover]
#[verifier::rlimit(100)]
pub proof fn lemma_packet_round_trip(m: PacketModel)
    ensures
        spec_decode_packet(spec_encode_packet(m)) == Some(m),
{
    reveal(dec_packet_fields);
    let s4 = spec_len_field(4, m.data);
    let s3 = spec_u32_field(3, m.id) + s4;
    let s2 = (match m.stat {
        Some(st) => spec_msg_field(2, spec_encode_stat(st)),
        None => Seq::<u8>::empty(),
    }) + s3;
    let s1 = spec_u32_field(1, m.ptype) + s2;
    assert(spec_encode_packet(m) =~= s1);

    let a0 = default_packet();
    let a1 = PacketModel { ptype: m.ptype, ..a0 };
    let a2 = PacketModel { stat: m.stat, ..a1 };
    let a3 = PacketModel { id: m.id, ..a2 };

    if m.ptype == 0 {
        assert(s1 =~= s2);
        assert(a1 == a0);
    } else {
        packet_step_u32(1, m.ptype, s2, a0);
    }
    match m.stat {
        None => {
            assert(s2 =~= s3);
            assert(a2 == a1);
        },
        Some(st) => {
            let eb = spec_encode_stat(st);
            assert(s2 =~= spec_key(2, 2) + (spec_varint(eb.len()) + eb + s3));
            lemma_key_step(2, 2, spec_varint(eb.len()) + eb + s3);
            lemma_len_delim_step(eb, s3);
            lemma_stat_roundtrip(st);
            assert(dec_packet_fields(s2, a1) == dec_packet_fields(s3, a2));
        },
    }
    if m.id == 0 {
        assert(s3 =~= s4);
        assert(a3 == a2);
    } else {
        packet_step_u32(3, m.id, s4, a2);
    }
    if m.data.len() == 0 {
        assert(s4 =~= Seq::<u8>::empty());
        assert(dec_packet_fields(s4, a3) == Some(a3));
        assert(m.data =~= Seq::<u8>::empty());
        assert(a3 == m);
    } else {
        assert(spec_varint(m.data.len()) + m.data + Seq::<u8>::empty() =~= spec_varint(
            m.data.len(),
        ) + m.data);
        assert(s4 =~= spec_key(4, 2) + (spec_varint(m.data.len()) + m.data + Seq::<u8>::empty()));
        lemma_key_step(4, 2, spec_varint(m.data.len()) + m.data + Seq::<u8>::empty());
        lemma_len_delim_step(m.data, Seq::empty());
        assert(dec_packet_fields(s4, a3) == dec_packet_fields(
            Seq::<u8>::empty(),
            PacketModel { data: m.data, ..a3 },
        ));
        assert((PacketModel { data: m.data, ..a3 }) == m);
    }
}

/// Decode the fields of a message whose only known field is one string
/// in field number one, skipping everything else; the accumulator is the
/// text seen so far.
#[verifier::opaque]
pub open spec fn dec_string1_fields(s: Seq<u8>, v: Seq<char>) -> Option<Seq<char>>
    decreases s.len(),
    via dec_string1_fields_dec
{
    if s.len() == 0 {
        Some(v)
    } else {
        match take_varint(s) {
            None => None,
            Some((tag, r)) => if tag > u64::MAX {
                None
            } else {
                let f = tag / 8;
                let wt = tag % 8;
                if f == 1 && wt == 2 {
                    match take_len_delim(r) {
                        None => None,
                        Some((b, r2)) => if valid_utf8(b) {
                            dec_string1_fields(r2, decode_utf8(b))
                        } else {
                            None
                        },
                    }
                } else {
                    match spec_skip_field(wt, r) {
                        None => None,
                        Some(r2) => dec_string1_fields(r2, v),
                    }
                }
            },
        }
    }
}

#[via_fn]
proof fn dec_string1_fields_dec(s: Seq<u8>, v: Seq<char>) {
    lemma_take_varint_len(s);
    match take_varint(s) {
        Some((tag, r)) => {
            lemma_take_len_delim_len(r);
            lemma_skip_field_len(tag % 8, r);
        },
        None => {},
    }
}

/// The single string a one-string-field message carries: the credentials
/// request's host, or the secret request's id.
pub open spec fn spec_decode_string1(s: Seq<u8>) -> Option<Seq<char>> {
    dec_string1_fields(s, Seq::empty())
}

/// Decode a message whose only meaningful field is one string: the host
/// of a credentials request, or the id of a secret request. Unknown
/// fields, such as a secret request's annotations, are skipped.
pub fn decode_string1(buf: &Vec<u8>) -> (r: Result<String, DecodeError>)
    ensures
        r matches Ok(v) ==> spec_decode_string1(buf@) == Some(v@),
        r is Err ==> spec_decode_string1(buf@) is None,
{
    broadcast use vstd::utf8::encode_utf8_decode_utf8;
    broadcast use vstd::utf8::encode_utf8_valid_utf8;

    let mut cur = String::new();
    let mut pos: usize = 0;
    let len = buf.len();
    proof {
        reveal(dec_string1_fields);
        assert(buf@.skip(0) =~= buf@);
    }
    while pos < len
        invariant
            0 <= pos <= len,
            len == buf@.len(),
            spec_decode_string1(buf@) == dec_string1_fields(buf@.skip(pos as int), cur@),
        decreases len - pos,
    {
        proof {
            reveal(dec_string1_fields);
        }
        let (tag, p1) = match read_varint(buf, pos) {
            Ok(p) => p,
            Err(e) => {
                return Err(e);
            },
        };
        let f = tag / 8;
        let wt = tag % 8;
        if f == 1 && wt == 2 {
            let (b, p2) = match read_len_delim(buf, p1) {
                Ok(p) => p,
                Err(e) => {
                    return Err(e);
                },
            };
            let ghost bv = b@;
            match string_from_utf8(b) {
                Some(s2) => {
                    proof {
                        encode_utf8_decode_utf8(s2@);
                        assert(decode_utf8(bv) == s2@);
                    }
                    cur = s2;
                },
                None => {
                    return Err(DecodeError::Malformed);
                },
            }
            pos = p2;
        } else {
            let np = match skip_value(buf, p1, wt) {
                Ok(np) => np,
                Err(e) => {
                    return Err(e);
                },
            };
            pos = np;
        }
    }
    proof {
        reveal(dec_string1_fields);
        assert(buf@.skip(len as int) =~= Seq::<u8>::empty());
    }
    Ok(cur)
}

/// The encoded credentials reply: a username and a secret.
pub fn encode_credentials_response(username: &str, secret: &str) -> (r: Vec<u8>)
    ensures
        r@ == spec_str_field(1, username@) + spec_str_field(2, secret@),
{
    let mut out: Vec<u8> = Vec::new();
    proof {
        assert(out@ =~= Seq::<u8>::empty());
    }
    write_str_field(&mut out, 1, username);
    write_str_field(&mut out, 2, secret);
    out
}

/// The encoded token reply: always empty, every field being zero, since
/// the daemon performs its own token exchange.
pub fn encode_fetch_token_response() -> (r: Vec<u8>)
    ensures
        r@ == Seq::<u8>::empty(),
{
    let r: Vec<u8> = Vec::new();
    proof {
        assert(r@ =~= Seq::<u8>::empty());
    }
    r
}

/// The encoded token-authority reply of the permissive strategy: an
/// empty public key, which also makes the daemon fall back to plain
/// credentials.
pub fn encode_token_authority_response() -> (r: Vec<u8>)
    ensures
        r@ == Seq::<u8>::empty(),
{
    let r: Vec<u8> = Vec::new();
    proof {
        assert(r@ =~= Seq::<u8>::empty());
    }
    r
}

/// The encoded secret reply: the raw bytes of the secret.
pub fn encode_get_secret_response(data: &Vec<u8>) -> (r: Vec<u8>)
    ensures
        r@ == spec_len_field(1, data@),
{
    let mut out: Vec<u8> = Vec::new();
    proof {
        assert(out@ =~= Seq::<u8>::empty());
    }
    write_len_field(&mut out, 1, data);
    out
}

/// The encoded health reply: serving status one.
pub fn encode_health_response() -> (r: Vec<u8>)
    ensures
        r@ == spec_u32_field(1, 1),
        r@ == seq![8u8, 1u8],
{
    let mut out: Vec<u8> = Vec::new();
    proof {
        assert(out@ =~= Seq::<u8>::empty());
    }
    write_u32_field(&mut out, 1, 1);
    proof {
        assert(spec_key(1, 0) =~= seq![8u8]);
        assert(spec_varint(1) =~= seq![1u8]);
        assert(out@ =~= seq![8u8, 1u8]);
    }
    out
}

} // verus!
