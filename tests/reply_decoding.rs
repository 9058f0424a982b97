use valpago::reply::{parse_streams, Node, Reply};

struct Builder {
    nodes: Vec<Node>,
}

impl Builder {
    fn add(&mut self, n: Node) -> usize {
        self.nodes.push(n);
        self.nodes.len() - 1
    }
    fn data(&mut self, b: &[u8]) -> usize {
        self.add(Node::Data(b.to_vec()))
    }
    fn bulk(&mut self, v: Vec<usize>) -> usize {
        self.add(Node::Bulk(v))
    }
    fn entry(&mut self, id: &[u8], kvs: &[&[u8]]) -> usize {
        let i = self.data(id);
        let fields: Vec<usize> = kvs.iter().map(|b| self.data(b)).collect();
        let f = self.bulk(fields);
        self.bulk(vec![i, f])
    }
}

#[test]
fn parses_entries_in_order() {
    let mut b = Builder { nodes: Vec::new() };
    let e1 = b.entry(b"1-0", &[b"payload", b"one"]);
    let e2 = b.entry(b"2-0", &[b"other", b"x", b"payload", b"two"]);
    let items = b.bulk(vec![e1, e2]);
    let name = b.data(b"valpago:transactions");
    let stream = b.bulk(vec![name, items]);
    let root = b.bulk(vec![stream]);
    let got = parse_streams(&Reply { nodes: b.nodes, root });
    assert_eq!(got.len(), 2);
    assert_eq!(got[0].id, "1-0");
    assert_eq!(got[0].payload, Some(b"one".to_vec()));
    assert_eq!(got[1].id, "2-0");
    assert_eq!(got[1].payload, Some(b"two".to_vec()));
}

#[test]
fn entry_without_payload_is_kept_for_ack() {
    let mut b = Builder { nodes: Vec::new() };
    let e1 = b.entry(b"5-0", &[b"other", b"x"]);
    let e2 = b.entry(b"6-0", &[b"payload", b"a", b"payload", b"b"]);
    let items = b.bulk(vec![e1, e2]);
    let name = b.data(b"s");
    let stream = b.bulk(vec![name, items]);
    let root = b.bulk(vec![stream]);
    let got = parse_streams(&Reply { nodes: b.nodes, root });
    assert_eq!(got.len(), 2);
    assert_eq!(got[0].id, "5-0");
    assert_eq!(got[0].payload, None);
    assert_eq!(got[1].payload, Some(b"b".to_vec()));
}

#[test]
fn nil_reply_is_empty() {
    let got = parse_streams(&Reply { nodes: vec![Node::Nil], root: 0 });
    assert!(got.is_empty());
    let got = parse_streams(&Reply { nodes: vec![], root: 3 });
    assert!(got.is_empty());
}

#[test]
fn malformed_shapes_are_passed_over() {
    let mut b = Builder { nodes: Vec::new() };
    let bad_entry = b.bulk(vec![]);
    let bad_id = {
        let i = b.add(Node::Int(7));
        let f = b.bulk(vec![]);
        b.bulk(vec![i, f])
    };
    let good = b.entry(b"9-0", &[b"payload", b"ok"]);
    let dangling = b.bulk(vec![1000]);
    let items = b.bulk(vec![bad_entry, bad_id, good, dangling]);
    let name = b.data(b"s");
    let short_stream = b.bulk(vec![name]);
    let stream = b.bulk(vec![name, items]);
    let root = b.bulk(vec![short_stream, stream]);
    let got = parse_streams(&Reply { nodes: b.nodes, root });
    assert_eq!(got.len(), 1);
    assert_eq!(got[0].id, "9-0");
}

#[test]
fn non_utf8_id_is_passed_over() {
    let mut b = Builder { nodes: Vec::new() };
    let e = b.entry(&[0xff], &[b"payload", b"p"]);
    let items = b.bulk(vec![e]);
    let name = b.data(b"s");
    let stream = b.bulk(vec![name, items]);
    let root = b.bulk(vec![stream]);
    assert!(parse_streams(&Reply { nodes: b.nodes, root }).is_empty());
}
