use vstd::prelude::*;
use std::collections::{HashMap, HashSet};

use crate::text::{decimal, lemma_parse_decimal, parse_u32, parse_unsigned, starts_with};

verus! {

broadcast use vstd::std_specs::hash::group_hash_axioms;

/// The number in a waterbody id `wb-<n>`: the text after `wb-`, read as a `u32`.
pub open spec fn wb_id(s: Seq<char>) -> Option<u32> {
    if s.len() >= 3 && s.take(3) == "wb-"@ {
        match parse_unsigned(s.skip(3), u32::MAX as nat) {
            Some(n) => Some(n as u32),
            None => None,
        }
    } else {
        None
    }
}

/// The waterbody id `wb-<n>` reads back as `n`.
pub proof fn lemma_wb_id_round_trip(n: u32)
    ensures
        wb_id("wb-"@ + decimal(n as nat)) == Some(n),
{
    reveal_strlit("wb-");
    let s = "wb-"@ + decimal(n as nat);
    assert(s.take(3) =~= "wb-"@);
    assert(s.skip(3) =~= decimal(n as nat));
    lemma_parse_decimal(n as nat, u32::MAX as nat);
}

/// The number in a waterbody id (see `wb_id`).
pub fn parse_wb_id(s: &str) -> (r: Option<u32>)
    ensures
        r == wb_id(s@),
{
    proof {
        reveal_strlit("wb-");
    }
    if !starts_with(s, "wb-") {
        return None;
    }
    let n = s.unicode_len();
    let rest = s.substring_char(3, n);
    assert(rest@ =~= s@.skip(3));
    parse_u32(rest)
}

/// The ids as a set.
pub fn id_set(ids: &Vec<u32>) -> (r: HashSet<u32>)
    ensures
        r@ == ids@.to_set(),
{
    let mut r: HashSet<u32> = HashSet::new();
    let mut i: usize = 0;
    while i < ids.len()
        invariant
            i <= ids@.len(),
            r@ == ids@.take(i as int).to_set(),
        decreases ids.len() - i,
    {
        r.insert(ids[i]);
        proof {
            assert(ids@.take(i + 1) =~= ids@.take(i as int).push(ids@[i as int]));
            ids@.take(i as int).lemma_push_to_set_commute(ids@[i as int]);
        }
        i = i + 1;
    }
    assert(ids@.take(i as int) =~= ids@);
    r
}

/// The parameter row with waterbody id `key` is kept, under the number of its id, where
/// that number is one of the routed ids.
pub open spec fn kept_row(key: Seq<char>, routed: Set<u32>) -> Option<u32> {
    match wb_id(key) {
        Some(n) => if routed.contains(n) {
            Some(n)
        } else {
            None
        },
        None => None,
    }
}

/// For each parameter row (given by its waterbody id), the id under which it is kept:
/// rows whose id does not read as `wb-<n>`, or whose node is not routed, are dropped.
pub fn select_parameter_rows(routing_order: &Vec<u32>, row_keys: &Vec<String>) -> (r: Vec<Option<u32>>)
    ensures
        r@.len() == row_keys@.len(),
        forall|i: int| 0 <= i < r@.len() ==> #[trigger] r@[i] == kept_row(row_keys@[i]@, routing_order@.to_set()),
{
    let needed = id_set(routing_order);
    let mut r: Vec<Option<u32>> = Vec::new();
    let mut i: usize = 0;
    while i < row_keys.len()
        invariant
            i <= row_keys@.len(),
            needed@ == routing_order@.to_set(),
            r@.len() == i,
            forall|j: int| 0 <= j < i ==> #[trigger] r@[j] == kept_row(row_keys@[j]@, routing_order@.to_set()),
        decreases row_keys.len() - i,
    {
        let kept = match parse_wb_id(row_keys[i].as_str()) {
            Some(n) => if needed.contains(&n) {
                Some(n)
            } else {
                None
            },
            None => None,
        };
        r.push(kept);
        i = i + 1;
    }
    r
}

/// For each routed id that some parameter row is kept under, the position of the last
/// such row: a later row with the same waterbody id replaces an earlier one.
pub fn last_parameter_rows(routing_order: &Vec<u32>, row_keys: &Vec<String>) -> (r: HashMap<u32, usize>)
    ensures
        forall|id: u32| #[trigger]
            r@.contains_key(id) <==> exists|i: int|
                0 <= i < row_keys@.len() && #[trigger] kept_row(row_keys@[i]@, routing_order@.to_set()) == Some(id),
        forall|id: u32| #[trigger]
            r@.contains_key(id) ==> {
                let i = r@[id] as int;
                &&& 0 <= i < row_keys@.len()
                &&& kept_row(row_keys@[i]@, routing_order@.to_set()) == Some(id)
                &&& forall|j: int|
                    i < j < row_keys@.len() ==> #[trigger] kept_row(row_keys@[j]@, routing_order@.to_set()) != Some(id)
            },
{
    let ghost routed = routing_order@.to_set();
    let kept = select_parameter_rows(routing_order, row_keys);
    let mut r: HashMap<u32, usize> = HashMap::new();
    let mut i: usize = 0;
    while i < kept.len()
        invariant
            i <= kept@.len(),
            kept@.len() == row_keys@.len(),
            routed == routing_order@.to_set(),
            forall|k: int| 0 <= k < kept@.len() ==> #[trigger] kept@[k] == kept_row(row_keys@[k]@, routed),
            forall|id: u32| #[trigger]
                r@.contains_key(id) <==> exists|k: int| 0 <= k < i && #[trigger] kept@[k] == Some(id),
            forall|id: u32| #[trigger]
                r@.contains_key(id) ==> {
                    let k = r@[id] as int;
                    &&& 0 <= k < i
                    &&& kept@[k] == Some(id)
                    &&& forall|j: int| k < j < i ==> #[trigger] kept@[j] != Some(id)
                },
        decreases kept.len() - i,
    {
        match kept[i] {
            Some(n) => {
                r.insert(n, i);
                assert forall|id: u32| #[trigger]
                    r@.contains_key(id) <==> exists|k: int| 0 <= k < i + 1 && #[trigger] kept@[k] == Some(id) by {
                    if id != n && exists|k: int| 0 <= k < i + 1 && #[trigger] kept@[k] == Some(id) {
                        let k = choose|k: int| 0 <= k < i + 1 && #[trigger] kept@[k] == Some(id);
                        assert(k < i);
                    }
                    if id == n {
                        assert(kept@[i as int] == Some(id));
                    }
                }
            },
            None => {
                assert forall|id: u32| #[trigger]
                    r@.contains_key(id) <==> exists|k: int| 0 <= k < i + 1 && #[trigger] kept@[k] == Some(id) by {
                    if exists|k: int| 0 <= k < i + 1 && #[trigger] kept@[k] == Some(id) {
                        let k = choose|k: int| 0 <= k < i + 1 && #[trigger] kept@[k] == Some(id);
                        assert(k < i);
                    }
                }
            },
        }
        i = i + 1;
    }
    assert forall|id: u32| #[trigger]
        r@.contains_key(id) <==> exists|k: int|
            0 <= k < row_keys@.len() && #[trigger] kept_row(row_keys@[k]@, routed) == Some(id) by {
        if r@.contains_key(id) {
            let k = choose|k: int| 0 <= k < i && #[trigger] kept@[k] == Some(id);
            assert(kept_row(row_keys@[k]@, routed) == Some(id));
        }
        if exists|k: int| 0 <= k < row_keys@.len() && #[trigger] kept_row(row_keys@[k]@, routed) == Some(id) {
            let k = choose|k: int| 0 <= k < row_keys@.len() && #[trigger] kept_row(row_keys@[k]@, routed) == Some(id);
            assert(kept@[k] == Some(id));
        }
    }
    assert forall|id: u32| #[trigger] r@.contains_key(id) implies {
        let k = r@[id] as int;
        &&& 0 <= k < row_keys@.len()
        &&& kept_row(row_keys@[k]@, routed) == Some(id)
        &&& forall|j: int| k < j < row_keys@.len() ==> #[trigger] kept_row(row_keys@[j]@, routed) != Some(id)
    } by {
        let k = r@[id] as int;
        assert(kept@[k] == Some(id));
        assert forall|j: int| k < j < row_keys@.len() implies #[trigger] kept_row(row_keys@[j]@, routed) != Some(id) by {
            assert(kept@[j] != Some(id));
        }
    }
    r
}

/// The ids of `order` that are not in `loaded`, in their order.
pub open spec fn not_loaded(order: Seq<u32>, loaded: Set<u32>) -> Seq<u32>
    decreases order.len(),
{
    if order.len() == 0 {
        Seq::empty()
    } else {
        let rest = not_loaded(order.drop_last(), loaded);
        if loaded.contains(order.last()) {
            rest
        } else {
            rest.push(order.last())
        }
    }
}

/// Every routed id either has its parameters loaded or is reported missing, and no
/// id with loaded parameters is reported missing.
pub proof fn lemma_missing_ids_complete(order: Seq<u32>, loaded: Set<u32>)
    ensures
        forall|id: u32| #[trigger] order.contains(id) ==> loaded.contains(id) || not_loaded(order, loaded).contains(id),
        forall|id: u32| #[trigger] not_loaded(order, loaded).contains(id) ==> order.contains(id) && !loaded.contains(id),
    decreases order.len(),
{
    if order.len() > 0 {
        let init = order.drop_last();
        lemma_missing_ids_complete(init, loaded);
        let rest = not_loaded(init, loaded);
        assert forall|id: u32| #[trigger] order.contains(id) implies loaded.contains(id) || not_loaded(order, loaded).contains(id) by {
            let k = choose|k: int| 0 <= k < order.len() && order[k] == id;
            if k < order.len() - 1 {
                assert(init[k] == id);
                assert(init.contains(id));
                if rest.contains(id) && !loaded.contains(order.last()) {
                    let m = choose|m: int| 0 <= m < rest.len() && rest[m] == id;
                    assert(rest.push(order.last())[m] == id);
                }
            } else if !loaded.contains(id) {
                assert(rest.push(order.last())[rest.len() as int] == id);
            }
        }
        assert forall|id: u32| #[trigger] not_loaded(order, loaded).contains(id) implies order.contains(id) && !loaded.contains(id) by {
            let r = not_loaded(order, loaded);
            let m = choose|m: int| 0 <= m < r.len() && r[m] == id;
            if m < rest.len() {
                assert(rest[m] == id);
                assert(rest.contains(id));
                let k = choose|k: int| 0 <= k < init.len() && init[k] == id;
                assert(order[k] == id);
            } else {
                assert(order[order.len() - 1] == id);
            }
        }
    }
}

/// The routed ids for which no parameters were loaded, in routing order.
pub fn missing_ids(routing_order: &Vec<u32>, loaded: &HashSet<u32>) -> (r: Vec<u32>)
    ensures
        r@ == not_loaded(routing_order@, loaded@),
{
    let mut r: Vec<u32> = Vec::new();
    let mut i: usize = 0;
    while i < routing_order.len()
        invariant
            i <= routing_order@.len(),
            r@ == not_loaded(routing_order@.take(i as int), loaded@),
        decreases routing_order.len() - i,
    {
        assert(routing_order@.take(i + 1).drop_last() =~= routing_order@.take(i as int));
        let id = routing_order[i];
        if !loaded.contains(&id) {
            r.push(id);
        }
        i = i + 1;
    }
    assert(routing_order@.take(i as int) =~= routing_order@);
    r
}

} // verus!
