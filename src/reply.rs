//! Decoding of a group read reply. The reply is a tree of values (stream ->
//! entries -> id and field/value pairs) stored as an arena: an array value
//! lists the positions of its elements in `nodes`.
use vstd::prelude::*;
use crate::text::{utf8_decode, utf8_text};

verus! {

/// One value of a reply.
pub enum Node {
    Nil,
    Int(i64),
    Data(Vec<u8>),
    Status(String),
    Okay,
    /// An array; each element is the position of a value in the arena.
    Bulk(Vec<usize>),
}

/// A reply: its values and the position of the outermost one.
pub struct Reply {
    pub nodes: Vec<Node>,
    pub root: usize,
}

/// One entry of the reply: its id and the bytes of its `payload` field,
/// `None` when the entry has no such field.
pub struct StreamEntry {
    pub id: String,
    pub payload: Option<Vec<u8>>,
}

/// The field that carries an entry's payload.
pub open spec fn payload_key() -> Seq<u8> {
    seq![112u8, 97u8, 121u8, 108u8, 111u8, 97u8, 100u8]
}

pub open spec fn bulk_of(nodes: Seq<Node>, i: int) -> Option<Seq<usize>> {
    if 0 <= i < nodes.len() {
        match nodes[i] {
            Node::Bulk(v) => Some(v@),
            _ => None,
        }
    } else {
        None
    }
}

pub open spec fn data_of(nodes: Seq<Node>, i: int) -> Option<Seq<u8>> {
    if 0 <= i < nodes.len() {
        match nodes[i] {
            Node::Data(v) => Some(v@),
            _ => None,
        }
    } else {
        None
    }
}

/// The value of the last `payload` field among the first `n` field/value
/// pairs of `kvs`.
pub open spec fn payload_in(nodes: Seq<Node>, kvs: Seq<usize>, n: nat) -> Option<Seq<u8>>
    decreases n,
{
    if n == 0 {
        None
    } else {
        let prev = payload_in(nodes, kvs, (n - 1) as nat);
        let k = kvs[2 * (n - 1)] as int;
        let v = kvs[2 * (n - 1) + 1] as int;
        match (data_of(nodes, k), data_of(nodes, v)) {
            (Some(kb), Some(vb)) => if kb == payload_key() { Some(vb) } else { prev },
            _ => prev,
        }
    }
}

/// What an entry value `[id, [k, v, ...]]` decodes to: `None` unless it has
/// that shape and its id is UTF-8.
pub open spec fn entry_of(nodes: Seq<Node>, item: int) -> Option<(Seq<char>, Option<Seq<u8>>)> {
    match bulk_of(nodes, item) {
        Some(parts) => if parts.len() == 2 {
            match (data_of(nodes, parts[0] as int), bulk_of(nodes, parts[1] as int)) {
                (Some(id), Some(kvs)) => match utf8_decode(id) {
                    Some(t) => Some((t, payload_in(nodes, kvs, kvs.len() / 2))),
                    None => None,
                },
                _ => None,
            }
        } else {
            None
        },
        None => None,
    }
}

/// The decoded entries among the first `n` entry values of `items`.
pub open spec fn entries_in(nodes: Seq<Node>, items: Seq<usize>, n: nat) -> Seq<(Seq<char>, Option<Seq<u8>>)>
    decreases n,
{
    if n == 0 {
        Seq::empty()
    } else {
        let prev = entries_in(nodes, items, (n - 1) as nat);
        match entry_of(nodes, items[n - 1] as int) {
            Some(e) => prev.push(e),
            None => prev,
        }
    }
}

/// The entries of one stream value `[name, [entry, ...]]`.
pub open spec fn stream_entries(nodes: Seq<Node>, s: int) -> Seq<(Seq<char>, Option<Seq<u8>>)> {
    match bulk_of(nodes, s) {
        Some(e) => if e.len() >= 2 {
            match bulk_of(nodes, e[1] as int) {
                Some(items) => entries_in(nodes, items, items.len()),
                None => Seq::empty(),
            }
        } else {
            Seq::empty()
        },
        None => Seq::empty(),
    }
}

/// The entries of the first `n` stream values, stream after stream.
pub open spec fn streams_in(nodes: Seq<Node>, streams: Seq<usize>, n: nat) -> Seq<(Seq<char>, Option<Seq<u8>>)>
    decreases n,
{
    if n == 0 {
        Seq::empty()
    } else {
        streams_in(nodes, streams, (n - 1) as nat) + stream_entries(nodes, streams[n - 1] as int)
    }
}

/// Everything a reply decodes to, in reply order.
pub open spec fn parsed(nodes: Seq<Node>, root: int) -> Seq<(Seq<char>, Option<Seq<u8>>)> {
    match bulk_of(nodes, root) {
        Some(streams) => streams_in(nodes, streams, streams.len()),
        None => Seq::empty(),
    }
}

impl StreamEntry {
    pub open spec fn view_pair(&self) -> (Seq<char>, Option<Seq<u8>>) {
        (self.id@, match self.payload {
            Some(p) => Some(p@),
            None => None,
        })
    }
}

pub open spec fn entries_view(v: Seq<StreamEntry>) -> Seq<(Seq<char>, Option<Seq<u8>>)> {
    v.map_values(|e: StreamEntry| e.view_pair())
}

fn bulk_at(nodes: &Vec<Node>, i: usize) -> (r: Option<&Vec<usize>>)
    ensures
        r.is_some() == bulk_of(nodes@, i as int).is_some(),
        r.is_some() ==> r.unwrap()@ == bulk_of(nodes@, i as int).unwrap(),
{
    if i < nodes.len() {
        match &nodes[i] {
            Node::Bulk(v) => Some(v),
            _ => None,
        }
    } else {
        None
    }
}

fn data_at(nodes: &Vec<Node>, i: usize) -> (r: Option<&Vec<u8>>)
    ensures
        r.is_some() == data_of(nodes@, i as int).is_some(),
        r.is_some() ==> r.unwrap()@ == data_of(nodes@, i as int).unwrap(),
{
    if i < nodes.len() {
        match &nodes[i] {
            Node::Data(v) => Some(v),
            _ => None,
        }
    } else {
        None
    }
}

fn is_payload_key(k: &Vec<u8>) -> (r: bool)
    ensures
        r == (k@ == payload_key()),
{
    let r = k.len() == 7 && k[0] == 112u8 && k[1] == 97u8 && k[2] == 121u8 && k[3] == 108u8
        && k[4] == 111u8 && k[5] == 97u8 && k[6] == 100u8;
    if r {
        assert(k@ =~= payload_key());
    }
    r
}

fn payload_field(nodes: &Vec<Node>, kvs: &Vec<usize>) -> (r: Option<Vec<u8>>)
    ensures
        r.is_some() == payload_in(nodes@, kvs@, kvs@.len() / 2).is_some(),
        r.is_some() ==> r.unwrap()@ == payload_in(nodes@, kvs@, kvs@.len() / 2).unwrap(),
{
    let len = kvs.len();
    let pairs = len / 2;
    let mut found: Option<Vec<u8>> = None;
    let mut p: usize = 0;
    while p < pairs
        invariant
            pairs == kvs@.len() / 2,
            len == kvs@.len(),
            p <= pairs,
            found.is_some() == payload_in(nodes@, kvs@, p as nat).is_some(),
            found.is_some() ==> found.unwrap()@ == payload_in(nodes@, kvs@, p as nat).unwrap(),
        decreases pairs - p,
    {
        assert(2 * p + 1 < len) by (nonlinear_arith)
            requires
                p < pairs,
                pairs == len / 2,
        ;
        let k = data_at(nodes, kvs[2 * p]);
        let v = data_at(nodes, kvs[2 * p + 1]);
        match (k, v) {
            (Some(kb), Some(vb)) => {
                if is_payload_key(kb) {
                    let c = vb.clone();
                    assert(c@ =~= vb@);
                    found = Some(c);
                }
            },
            _ => {},
        }
        p = p + 1;
    }
    found
}

fn entry_at(nodes: &Vec<Node>, item: usize) -> (r: Option<StreamEntry>)
    ensures
        r.is_some() == entry_of(nodes@, item as int).is_some(),
        r.is_some() ==> r.unwrap().view_pair() == entry_of(nodes@, item as int).unwrap(),
{
    let parts = match bulk_at(nodes, item) {
        Some(parts) => parts,
        None => {
            return None;
        },
    };
    if parts.len() != 2 {
        return None;
    }
    let id = match data_at(nodes, parts[0]) {
        Some(id) => id,
        None => {
            return None;
        },
    };
    let kvs = match bulk_at(nodes, parts[1]) {
        Some(kvs) => kvs,
        None => {
            return None;
        },
    };
    match utf8_text(id) {
        Some(t) => Some(StreamEntry { id: t, payload: payload_field(nodes, kvs) }),
        None => None,
    }
}

fn push_stream_entries(nodes: &Vec<Node>, s: usize, out: &mut Vec<StreamEntry>)
    ensures
        entries_view(final(out)@) == entries_view(old(out)@) + stream_entries(nodes@, s as int),
{
    let e = match bulk_at(nodes, s) {
        Some(e) => e,
        None => {
            assert(entries_view(out@) + stream_entries(nodes@, s as int) =~= entries_view(out@));
            return;
        },
    };
    if e.len() < 2 {
        assert(entries_view(out@) + stream_entries(nodes@, s as int) =~= entries_view(out@));
        return;
    }
    let items = match bulk_at(nodes, e[1]) {
        Some(items) => items,
        None => {
            assert(entries_view(out@) + stream_entries(nodes@, s as int) =~= entries_view(out@));
            return;
        },
    };
    let ghost start = entries_view(out@);
    let mut j: usize = 0;
    assert(start + entries_in(nodes@, items@, 0) =~= start);
    while j < items.len()
        invariant
            j <= items@.len(),
            entries_view(out@) == start + entries_in(nodes@, items@, j as nat),
        decreases items@.len() - j,
    {
        let ghost before = out@;
        match entry_at(nodes, items[j]) {
            Some(en) => {
                out.push(en);
                assert(entries_view(out@) =~= entries_view(before).push(entry_of(nodes@, items@[j as int] as int).unwrap()));
            },
            None => {},
        }
        assert(start + entries_in(nodes@, items@, j as nat + 1) =~= entries_view(out@));
        j = j + 1;
    }
}

/// Decodes a group read reply `[[stream, [[id, [k, v, ...]], ...]], ...]`
/// into its entries in reply order. Values of any other shape, and entries
/// whose id is not UTF-8, are passed over; an entry without a `payload` field
/// is kept with no payload, so that it can still be acknowledged.
pub fn parse_streams(value: &Reply) -> (r: Vec<StreamEntry>)
    ensures
        entries_view(r@) == parsed(value.nodes@, value.root as int),
{
    let mut out: Vec<StreamEntry> = Vec::new();
    let streams = match bulk_at(&value.nodes, value.root) {
        Some(streams) => streams,
        None => {
            assert(entries_view(out@) =~= Seq::<(Seq<char>, Option<Seq<u8>>)>::empty());
            return out;
        },
    };
    let mut i: usize = 0;
    assert(entries_view(out@) =~= streams_in(value.nodes@, streams@, 0));
    while i < streams.len()
        invariant
            i <= streams@.len(),
            entries_view(out@) == streams_in(value.nodes@, streams@, i as nat),
        decreases streams@.len() - i,
    {
        push_stream_entries(&value.nodes, streams[i], &mut out);
        i = i + 1;
    }
    out
}

} // verus!
