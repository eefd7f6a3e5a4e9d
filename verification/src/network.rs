use vstd::prelude::*;
use std::collections::HashMap;
use vstd::std_specs::iter::IteratorSpec;
use vstd::string::*;

use crate::text::{
    decimal, decimal_string, first_index_of, join_path, lemma_decimal_has_no, lemma_parse_decimal, parse_u32,
    parse_unsigned, path_join, second_field, second_field_of,
};

verus! {

broadcast use vstd::std_specs::hash::group_hash_axioms;

/// A catchment of the river network: its own id, the id of the catchment that it
/// drains into, the ids of the catchments that drain into it, and the file that
/// holds its lateral inflow.
#[derive(Debug)]
pub struct NetworkNode {
    pub id: u32,
    pub downstream_id: Option<u32>,
    pub upstream_ids: Vec<u32>,
    pub qlat_file: String,
}

impl NetworkNode {
    /// A node with no known upstream nodes yet.
    pub fn new(id: u32, downstream_id: Option<u32>, qlat_file: String) -> (r: NetworkNode)
        ensures
            r.id == id,
            r.downstream_id == downstream_id,
            r.upstream_ids@ == Seq::<u32>::empty(),
            r.qlat_file == qlat_file,
    {
        NetworkNode { id, downstream_id, upstream_ids: Vec::new(), qlat_file }
    }
}

/// The river network: its nodes by id, and the order in which they are routed.
#[derive(Debug)]
pub struct NetworkTopology {
    pub nodes: HashMap<u32, NetworkNode>,
    pub routing_order: Vec<u32>,
}

/// The keys of the map whose node drains into `d`.
pub open spec fn upstream_keys(nodes: Map<u32, NetworkNode>, d: u32) -> Set<u32> {
    Set::new(|k: u32| nodes.contains_key(k) && nodes[k].downstream_id == Some(d))
}

/// Some node of the map drains into `d`.
pub open spec fn has_upstream(nodes: Map<u32, NetworkNode>, d: u32) -> bool {
    exists|k: u32| nodes.contains_key(k) && nodes[k].downstream_id == Some(d)
}

/// Each key of the map once, in the order in which the map lists them.
fn keys_of<V>(m: &HashMap<u32, V>) -> (ids: Vec<u32>)
    ensures
        ids@.no_duplicates(),
        ids@.to_set() == m@.dom(),
        ids@.len() == m@.dom().len(),
{
    let mut ids: Vec<u32> = Vec::new();
    let ks = m.keys();
    let ghost all = ks.remaining().unref();
    for k in it: ks
        invariant
            it.seq().unref() == all,
            ids@ == all.take(it.index()),
    {
        assert(*k == all[it.index()]);
        ids.push(*k);
        assert(ids@ =~= all.take(it.index() + 1));
    }
    assert(ids@ =~= all);
    ids
}

impl NetworkTopology {
    /// An empty network.
    pub fn new() -> (r: NetworkTopology)
        ensures
            r.nodes@ == Map::<u32, NetworkNode>::empty(),
            r.routing_order@ == Seq::<u32>::empty(),
    {
        NetworkTopology { nodes: HashMap::new(), routing_order: Vec::new() }
    }

    /// Adds (or replaces) the node `id`, with no known upstream nodes.
    pub fn add_node(&mut self, id: u32, downstream_id: Option<u32>, qlat_file: String)
        ensures
            final(self).nodes@ == old(self).nodes@.insert(id, final(self).nodes@[id]),
            final(self).nodes@[id].id == id,
            final(self).nodes@[id].downstream_id == downstream_id,
            final(self).nodes@[id].upstream_ids@ == Seq::<u32>::empty(),
            final(self).nodes@[id].qlat_file == qlat_file,
            final(self).routing_order == old(self).routing_order,
    {
        let node = NetworkNode::new(id, downstream_id, qlat_file);
        self.nodes.insert(id, node);
    }

    /// Sets the routing order to the ids of all nodes, each once.
    pub fn collect_node_ids(&mut self)
        ensures
            final(self).nodes == old(self).nodes,
            final(self).routing_order@.no_duplicates(),
            final(self).routing_order@.to_set() == old(self).nodes@.dom(),
    {
        self.routing_order = keys_of(&self.nodes);
    }

    /// Records, at each node that some node drains into, the ids of exactly those
    /// nodes, each once; the other nodes, and everything else, stay as they were.
    pub fn build_upstream_connections(&mut self)
        ensures
            final(self).routing_order == old(self).routing_order,
            final(self).nodes@.dom() == old(self).nodes@.dom(),
            forall|k: u32| #[trigger]
                old(self).nodes@.contains_key(k) ==> {
                    let o = old(self).nodes@[k];
                    let n = final(self).nodes@[k];
                    &&& n.id == o.id
                    &&& n.downstream_id == o.downstream_id
                    &&& n.qlat_file == o.qlat_file
                    &&& if has_upstream(old(self).nodes@, k) {
                        &&& n.upstream_ids@.no_duplicates()
                        &&& n.upstream_ids@.to_set() == upstream_keys(old(self).nodes@, k)
                    } else {
                        n.upstream_ids == o.upstream_ids
                    }
                },
    {
        let ghost nodes0 = self.nodes@;
        let ids = keys_of(&self.nodes);
        let mut upstream_map: HashMap<u32, Vec<u32>> = HashMap::new();
        let mut i: usize = 0;
        while i < ids.len()
            invariant
                self.nodes@ == nodes0,
                i <= ids@.len(),
                ids@.no_duplicates(),
                ids@.to_set() == nodes0.dom(),
                forall|d: u32| #[trigger]
                    upstream_map@.contains_key(d) <==> exists|x: u32| #[trigger]
                        drains_before(nodes0, ids@, i as int, x, d),
                forall|d: u32| #[trigger]
                    upstream_map@.contains_key(d) ==> {
                        &&& upstream_map@[d]@.no_duplicates()
                        &&& forall|x: u32| #[trigger]
                            upstream_map@[d]@.contains(x) <==> drains_before(nodes0, ids@, i as int, x, d)
                    },
            decreases ids.len() - i,
        {
            let id = ids[i];
            assert(ids@.to_set().contains(id));
            proof {
                lemma_drains_step(nodes0, ids@, i as int);
            }
            let ghost before = upstream_map@;
            match self.nodes.get(&id) {
                Some(node) => {
                    assert(nodes0[id] == *node);
                    match node.downstream_id {
                        Some(d) => {
                            let mut ups = match upstream_map.remove(&d) {
                                Some(v) => v,
                                None => Vec::new(),
                            };
                            let ghost prev = ups@;
                            assert(!prev.contains(id));
                            ups.push(id);
                            upstream_map.insert(d, ups);
                            assert forall|x: u32| #[trigger]
                                upstream_map@[d]@.contains(x) <==> drains_before(nodes0, ids@, i + 1, x, d) by {
                                assert(upstream_map@[d]@ == prev.push(id));
                                if prev.contains(x) {
                                    let k = choose|k: int| 0 <= k < prev.len() && prev[k] == x;
                                    assert(upstream_map@[d]@[k] == x);
                                }
                                if upstream_map@[d]@.contains(x) && x != id {
                                    let k = choose|k: int| 0 <= k < upstream_map@[d]@.len() && upstream_map@[d]@[k] == x;
                                    assert(prev[k] == x);
                                }
                                if x == id {
                                    assert(upstream_map@[d]@[prev.len() as int] == x);
                                }
                            }
                            assert forall|e: u32| #[trigger]
                                upstream_map@.contains_key(e) <==> exists|x: u32| #[trigger]
                                    drains_before(nodes0, ids@, i + 1, x, e) by {
                                if e == d {
                                    assert(drains_before(nodes0, ids@, i + 1, id, e));
                                } else {
                                    if exists|x: u32| #[trigger] drains_before(nodes0, ids@, i + 1, x, e) {
                                        let x = choose|x: u32| #[trigger] drains_before(nodes0, ids@, i + 1, x, e);
                                        assert(drains_before(nodes0, ids@, i as int, x, e));
                                    }
                                    if before.contains_key(e) {
                                        let x = choose|x: u32| #[trigger] drains_before(nodes0, ids@, i as int, x, e);
                                        assert(drains_before(nodes0, ids@, i + 1, x, e));
                                    }
                                }
                            }
                            assert forall|e: u32| #[trigger] upstream_map@.contains_key(e) && e != d implies
                                forall|x: u32| #[trigger] upstream_map@[e]@.contains(x) <==> drains_before(nodes0, ids@, i + 1, x, e) by {
                                assert(upstream_map@[e] == before[e]);
                            }
                        },
                        None => {
                            assert forall|e: u32| #[trigger]
                                upstream_map@.contains_key(e) <==> exists|x: u32| #[trigger]
                                    drains_before(nodes0, ids@, i + 1, x, e) by {
                                if exists|x: u32| #[trigger] drains_before(nodes0, ids@, i + 1, x, e) {
                                    let x = choose|x: u32| #[trigger] drains_before(nodes0, ids@, i + 1, x, e);
                                    assert(drains_before(nodes0, ids@, i as int, x, e));
                                }
                                if before.contains_key(e) {
                                    let x = choose|x: u32| #[trigger] drains_before(nodes0, ids@, i as int, x, e);
                                    assert(drains_before(nodes0, ids@, i + 1, x, e));
                                }
                            }
                        },
                    }
                },
                None => {},
            }
            i = i + 1;
        }
        let ghost ups0 = upstream_map@;
        let ds = keys_of(&upstream_map);
        let mut j: usize = 0;
        while j < ds.len()
            invariant
                j <= ds@.len(),
                ds@.no_duplicates(),
                ds@.to_set() == ups0.dom(),
                self.nodes@.dom() == nodes0.dom(),
                self.routing_order == old(self).routing_order,
                forall|k: u32| #[trigger]
                    nodes0.contains_key(k) ==> {
                        let o = nodes0[k];
                        let n = self.nodes@[k];
                        &&& n.id == o.id
                        &&& n.downstream_id == o.downstream_id
                        &&& n.qlat_file == o.qlat_file
                        &&& if ds@.take(j as int).contains(k) {
                            n.upstream_ids@ == ups0[k]@
                        } else {
                            n.upstream_ids == o.upstream_ids
                        }
                    },
                forall|m: int| j <= m < ds@.len() ==> #[trigger] upstream_map@.contains_key(ds@[m])
                    && upstream_map@[ds@[m]] == ups0[ds@[m]],
            decreases ds.len() - j,
        {
            let d = ds[j];
            let ghost nodes_before = self.nodes@;
            assert(ds@.take(j + 1) =~= ds@.take(j as int).push(d));
            assert(!ds@.take(j as int).contains(d));
            let ups = upstream_map.remove(&d);
            assert forall|m: int| j + 1 <= m < ds@.len() implies #[trigger] upstream_map@.contains_key(ds@[m])
                && upstream_map@[ds@[m]] == ups0[ds@[m]] by {
                assert(ds@[m] != ds@[j as int]);
            }
            match ups {
                Some(ups) => {
                    assert(ups@ == ups0[d]@);
                    match self.nodes.remove(&d) {
                        Some(mut node) => {
                            node.upstream_ids = ups;
                            self.nodes.insert(d, node);
                        },
                        None => {},
                    }
                },
                None => {},
            }
            assert forall|k: u32| #[trigger] nodes0.contains_key(k) implies
                (ds@.take(j + 1).contains(k) <==> (ds@.take(j as int).contains(k) || k == d)) by {
                if ds@.take(j + 1).contains(k) && k != d {
                    let m = choose|m: int| 0 <= m < j + 1 && #[trigger] ds@.take(j + 1)[m] == k;
                    assert(ds@.take(j as int)[m] == k);
                }
                if ds@.take(j as int).contains(k) {
                    let m = choose|m: int| 0 <= m < j && #[trigger] ds@.take(j as int)[m] == k;
                    assert(ds@.take(j + 1)[m] == k);
                }
                if k == d {
                    assert(ds@.take(j + 1)[j as int] == k);
                }
            }
            assert forall|k: u32| #[trigger] nodes0.contains_key(k) && k != d implies self.nodes@[k]
                == nodes_before[k] by {}
            j = j + 1;
        }
        proof {
            assert(ds@.take(j as int) =~= ds@);
            assert forall|k: u32| #[trigger] nodes0.contains_key(k) implies (has_upstream(nodes0, k)
                <==> ds@.contains(k)) by {
                assert(ds@.to_set().contains(k) == ds@.contains(k));
                if has_upstream(nodes0, k) {
                    let x = choose|x: u32| nodes0.contains_key(x) && nodes0[x].downstream_id == Some(k);
                    lemma_drains_all(nodes0, ids@, x, k);
                }
                if ups0.contains_key(k) {
                    let x = choose|x: u32| #[trigger] drains_before(nodes0, ids@, ids@.len() as int, x, k);
                    lemma_drains_all(nodes0, ids@, x, k);
                }
            }
            assert forall|k: u32| #[trigger] nodes0.contains_key(k) && has_upstream(nodes0, k) implies
                ups0[k]@.to_set() == upstream_keys(nodes0, k) && ups0[k]@.no_duplicates() by {
                assert(ds@.contains(k));
                assert(ds@.to_set().contains(k));
                assert(ups0.contains_key(k));
                assert forall|x: u32| #[trigger] ups0[k]@.to_set().contains(x) <==> upstream_keys(nodes0, k).contains(x) by {
                    assert(ups0[k]@.contains(x) == drains_before(nodes0, ids@, ids@.len() as int, x, k));
                    assert(ups0[k]@.to_set().contains(x) == ups0[k]@.contains(x));
                    lemma_drains_all(nodes0, ids@, x, k);
                }
                assert(ups0[k]@.to_set() =~= upstream_keys(nodes0, k));
            }
            assert forall|k: u32| #[trigger] nodes0.contains_key(k) implies (ds@.take(j as int).contains(k)
                <==> has_upstream(nodes0, k)) by {}
        }
    }
}

/// `x` is among the first `i` ids and drains into `d`.
pub open spec fn drains_before(nodes: Map<u32, NetworkNode>, ids: Seq<u32>, i: int, x: u32, d: u32) -> bool {
    ids.take(i).contains(x) && nodes[x].downstream_id == Some(d)
}

proof fn lemma_drains_step(nodes: Map<u32, NetworkNode>, ids: Seq<u32>, i: int)
    requires
        0 <= i < ids.len(),
        ids.no_duplicates(),
    ensures
        forall|x: u32, d: u32| #[trigger]
            drains_before(nodes, ids, i + 1, x, d) <==> (drains_before(nodes, ids, i, x, d) || (x
                == ids[i] && nodes[x].downstream_id == Some(d))),
        forall|d: u32| !drains_before(nodes, ids, i, ids[i], d),
{
    assert(ids.take(i + 1) =~= ids.take(i).push(ids[i]));
    assert forall|x: u32| #[trigger] ids.take(i + 1).contains(x) <==> (ids.take(i).contains(x) || x == ids[i]) by {
        if ids.take(i).contains(x) {
            let m = choose|m: int| 0 <= m < i && #[trigger] ids.take(i)[m] == x;
            assert(ids.take(i + 1)[m] == x);
        }
        if ids.take(i + 1).contains(x) && x != ids[i] {
            let m = choose|m: int| 0 <= m < i + 1 && #[trigger] ids.take(i + 1)[m] == x;
            assert(ids.take(i)[m] == x);
        }
        if x == ids[i] {
            assert(ids.take(i + 1)[i] == x);
        }
    }
    assert forall|d: u32| !drains_before(nodes, ids, i, ids[i], d) by {
        if ids.take(i).contains(ids[i]) {
            let m = choose|m: int| 0 <= m < i && #[trigger] ids.take(i)[m] == ids[i];
            assert(ids[m] == ids[i]);
        }
    }
}

proof fn lemma_drains_all(nodes: Map<u32, NetworkNode>, ids: Seq<u32>, x: u32, d: u32)
    requires
        ids.to_set() == nodes.dom(),
    ensures
        drains_before(nodes, ids, ids.len() as int, x, d) <==> (nodes.contains_key(x)
            && nodes[x].downstream_id == Some(d)),
{
    assert(ids.take(ids.len() as int) =~= ids);
    assert(ids.to_set().contains(x) == ids.contains(x));
}

/// A row of the hydrofabric's flowpath table: the ids of a catchment and of what it
/// drains into, as the table writes them (`wb-12`, `nex-13`, ...).
#[derive(Debug, Clone)]
pub struct FlowpathRow {
    pub id: String,
    pub toid: String,
}

/// Why the flowpath table does not give a network.
#[derive(Debug)]
pub enum TopologyError {
    InvalidId(String),
    InvalidToId(String),
}

pub enum TopologyFailure {
    InvalidId(Seq<char>),
    InvalidToId(Seq<char>),
}

impl View for TopologyError {
    type V = TopologyFailure;

    open spec fn view(&self) -> TopologyFailure {
        match self {
            TopologyError::InvalidId(s) => TopologyFailure::InvalidId(s@),
            TopologyError::InvalidToId(s) => TopologyFailure::InvalidToId(s@),
        }
    }
}

/// The number in an id such as `cat-12` or `nex-13`: the text between the first `-`
/// and the next `-` (or the end), read as a `u32`.
pub open spec fn dashed_id(s: Seq<char>) -> Option<u32> {
    match second_field(s, '-') {
        Some(f) => match parse_unsigned(f, u32::MAX as nat) {
            Some(n) => Some(n as u32),
            None => None,
        },
        None => None,
    }
}

/// The two numbers of a flowpath row.
pub open spec fn row_pair(row: (Seq<char>, Seq<char>)) -> Result<(u32, u32), TopologyFailure> {
    match dashed_id(row.0) {
        None => Err(TopologyFailure::InvalidId(row.0)),
        Some(a) => match dashed_id(row.1) {
            None => Err(TopologyFailure::InvalidToId(row.1)),
            Some(b) => Ok((a, b)),
        },
    }
}

/// The numbers of all rows, or the failure of the first row that has none.
pub open spec fn parse_rows(rows: Seq<(Seq<char>, Seq<char>)>) -> Result<Seq<(u32, u32)>, TopologyFailure>
    decreases rows.len(),
{
    if rows.len() == 0 {
        Ok(Seq::empty())
    } else {
        match parse_rows(rows.drop_last()) {
            Err(e) => Err(e),
            Ok(p) => match row_pair(rows.last()) {
                Err(e) => Err(e),
                Ok(pair) => Ok(p.push(pair)),
            },
        }
    }
}

pub open spec fn rows_view(rows: Seq<FlowpathRow>) -> Seq<(Seq<char>, Seq<char>)> {
    rows.map_values(|r: FlowpathRow| (r.id@, r.toid@))
}

/// Where each id drains into; a later row for an id replaces an earlier one.
pub open spec fn downstream_of(pairs: Seq<(u32, u32)>) -> Map<u32, u32>
    decreases pairs.len(),
{
    if pairs.len() == 0 {
        Map::empty()
    } else {
        downstream_of(pairs.drop_last()).insert(pairs.last().0, pairs.last().1)
    }
}

/// The lateral inflow file of catchment `id`: `<csv_dir>/cat-<id>.csv`.
pub open spec fn qlat_path(csv_dir: Seq<char>, id: u32) -> Seq<char> {
    join_path(csv_dir, "cat-"@ + decimal(id as nat) + ".csv"@)
}

/// The ids that drain into `d`.
pub open spec fn drains_into(dm: Map<u32, u32>, d: u32) -> Set<u32> {
    Set::new(|x: u32| dm.contains_key(x) && dm[x] == d)
}

/// The network that the numbers of the rows give.
pub open spec fn is_network_of(t: NetworkTopology, pairs: Seq<(u32, u32)>, csv_dir: Seq<char>) -> bool {
    let dm = downstream_of(pairs);
    &&& t.nodes@.dom() == dm.dom()
    &&& forall|k: u32| #[trigger]
        t.nodes@.contains_key(k) ==> {
            let n = t.nodes@[k];
            &&& n.id == k
            &&& n.downstream_id == Some(dm[k])
            &&& n.qlat_file@ == qlat_path(csv_dir, k)
            &&& n.upstream_ids@.no_duplicates()
            &&& n.upstream_ids@.to_set() == drains_into(dm, k)
        }
    &&& t.routing_order@.no_duplicates()
    &&& t.routing_order@.to_set() == dm.dom()
}

/// An id written as `<prefix>-<n>`, with a prefix free of `-`, reads back as `n`: the
/// catchment ids that the router writes (`cat-<n>`) are the ones it reads.
pub proof fn lemma_dashed_id_round_trip(prefix: Seq<char>, n: u32)
    requires
        first_index_of(prefix, '-') == prefix.len(),
    ensures
        dashed_id(prefix + seq!['-'] + decimal(n as nat)) == Some(n),
{
    let d = decimal(n as nat);
    let s = prefix + seq!['-'] + d;
    assert(s =~= prefix + (seq!['-'] + d));
    lemma_first_index_append(prefix, seq!['-'] + d, '-');
    assert(first_index_of(s, '-') == prefix.len());
    let rest = s.skip(prefix.len() + 1 as int);
    assert(rest =~= d);
    lemma_decimal_has_no(n as nat, '-');
    assert(rest.take(first_index_of(rest, '-') as int) =~= d);
    assert(second_field(s, '-') == Some(d));
    lemma_parse_decimal(n as nat, u32::MAX as nat);
    assert(parse_unsigned(d, u32::MAX as nat) == Some(n as nat));
}

proof fn lemma_first_index_append(a: Seq<char>, b: Seq<char>, c: char)
    requires
        first_index_of(a, c) == a.len(),
        b.len() > 0,
        b[0] == c,
    ensures
        first_index_of(a + b, c) == a.len(),
    decreases a.len(),
{
    if a.len() == 0 {
        assert(a + b =~= b);
    } else {
        assert((a + b).drop_first() =~= a.drop_first() + b);
        lemma_first_index_append(a.drop_first(), b, c);
    }
}

/// The number in an id such as `cat-12` (see `dashed_id`).
pub fn parse_dashed_id(s: &str) -> (r: Option<u32>)
    ensures
        r == dashed_id(s@),
{
    match second_field_of(s, '-') {
        Some(f) => parse_u32(f),
        None => None,
    }
}

/// `<csv_dir>/cat-<id>.csv`.
pub fn qlat_file_path(csv_dir: &str, id: u32) -> (r: String)
    ensures
        r@ == qlat_path(csv_dir@, id),
{
    proof {
        reveal_strlit("cat-");
        reveal_strlit(".csv");
    }
    let mut name = String::from_str("cat-");
    let digits = decimal_string(id);
    name.append(digits.as_str());
    name.append(".csv");
    path_join(csv_dir, name.as_str())
}

proof fn lemma_parse_rows_err(rows: Seq<(Seq<char>, Seq<char>)>, m: int, e: TopologyFailure)
    requires
        0 <= m <= rows.len(),
        parse_rows(rows.take(m)) == Err::<Seq<(u32, u32)>, TopologyFailure>(e),
    ensures
        parse_rows(rows) == Err::<Seq<(u32, u32)>, TopologyFailure>(e),
    decreases rows.len() - m,
{
    if m < rows.len() {
        assert(rows.take(m + 1).drop_last() =~= rows.take(m));
        lemma_parse_rows_err(rows, m + 1, e);
    } else {
        assert(rows.take(m) =~= rows);
    }
}

/// The river network that the rows of the flowpath table give: every row's ids must
/// read as numbers (else the first row that fails decides the error); each catchment
/// drains into its row's target, reads its inflow from `<csv_dir>/cat-<id>.csv`, and
/// knows exactly the catchments that drain into it; the routing order holds every
/// catchment once.
pub fn build_network_topology(rows: &Vec<FlowpathRow>, csv_dir: &str) -> (r: Result<NetworkTopology, TopologyError>)
    ensures
        match parse_rows(rows_view(rows@)) {
            Err(e) => (r matches Err(x) && x@ == e),
            Ok(pairs) => (r matches Ok(t) && is_network_of(t, pairs, csv_dir@)),
        },
{
    let ghost rv = rows_view(rows@);
    let mut topology = NetworkTopology::new();
    let ghost mut pairs: Seq<(u32, u32)> = Seq::empty();
    assert(rv.take(0) =~= Seq::<(Seq<char>, Seq<char>)>::empty());
    let mut i: usize = 0;
    while i < rows.len()
        invariant
            i <= rows@.len(),
            rv == rows_view(rows@),
            rv.len() == rows@.len(),
            parse_rows(rv.take(i as int)) == Ok::<Seq<(u32, u32)>, TopologyFailure>(pairs),
            topology.nodes@.dom() == downstream_of(pairs).dom(),
            forall|k: u32| #[trigger]
                topology.nodes@.contains_key(k) ==> {
                    let n = topology.nodes@[k];
                    &&& n.id == k
                    &&& n.downstream_id == Some(downstream_of(pairs)[k])
                    &&& n.qlat_file@ == qlat_path(csv_dir@, k)
                    &&& n.upstream_ids@ == Seq::<u32>::empty()
                },
        decreases rows.len() - i,
    {
        let row = &rows[i];
        assert(rv.take(i + 1).drop_last() =~= rv.take(i as int));
        assert(rv.take(i + 1).last() == (row.id@, row.toid@));
        let id = match parse_dashed_id(row.id.as_str()) {
            Some(n) => n,
            None => {
                proof {
                    lemma_parse_rows_err(rv, i + 1, TopologyFailure::InvalidId(row.id@));
                }
                return Err(TopologyError::InvalidId(row.id.clone()));
            },
        };
        let toid = match parse_dashed_id(row.toid.as_str()) {
            Some(n) => n,
            None => {
                proof {
                    lemma_parse_rows_err(rv, i + 1, TopologyFailure::InvalidToId(row.toid@));
                }
                return Err(TopologyError::InvalidToId(row.toid.clone()));
            },
        };
        let qlat = qlat_file_path(csv_dir, id);
        topology.add_node(id, Some(toid), qlat);
        proof {
            assert(pairs.push((id, toid)).drop_last() =~= pairs);
            pairs = pairs.push((id, toid));
        }
        i = i + 1;
    }
    assert(rv.take(i as int) =~= rv);
    let ghost built = topology.nodes@;
    topology.build_upstream_connections();
    topology.collect_node_ids();
    proof {
        let dm = downstream_of(pairs);
        assert forall|k: u32| #[trigger] topology.nodes@.contains_key(k) implies topology.nodes@[k].upstream_ids@.to_set()
            == drains_into(dm, k) && topology.nodes@[k].upstream_ids@.no_duplicates() by {
            assert(upstream_keys(built, k) =~= drains_into(dm, k));
            if !has_upstream(built, k) {
                assert(drains_into(dm, k) =~= Set::<u32>::empty());
                assert(Seq::<u32>::empty().to_set() =~= Set::<u32>::empty());
            }
        }
    }
    Ok(topology)
}

} // verus!
