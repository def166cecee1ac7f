//! The bag-tree walker: it follows the declared most-recently-used order of
//! every node of the MRU chain, decodes each child's binary record, checks
//! the declared order against the store's own enumeration of the child
//! keys, and assembles the tree of shell items.

use vstd::prelude::*;
use crate::bagpath::ShellBagPath;
use crate::bagpath::NodeSlot;
use crate::item::ShellItem;
use crate::item::ShellItemV;
use crate::item::le32;
use crate::item::decode_item_spec;
use crate::item::parse_node_value;
use crate::store::RegNode;
use crate::store::RegValue;
use crate::store::StoreError;
use crate::store::node_value_spec;
use crate::store::node_key_spec;
use crate::store::node_key_from;
use crate::store::read_value;
use crate::store::open_subkey;
use crate::strutil::dec_str;
use crate::strutil::parse_u32_spec;
use crate::strutil::parse_u32_name;
use crate::strutil::u64_to_string;
use crate::windows_info::WindowBagInfo;
use crate::windows_info::read_windows_in_bag;
use crate::windows_info::windows_of_spec;
use crate::windows_info::out_spec;

verus! {

/// One assembled tree: entries keyed by path, the anomalies seen while
/// walking, and the per-slot window records.
#[derive(Debug)]
pub struct ShellBagList {
    /// The tree: one entry per visited path, its optional view-state slot
    /// and its decoded item.
    pub list: Vec<(ShellBagPath, (Option<u32>, ShellItem))>,
    /// Paths whose records were seen to have been removed; kept empty by
    /// the walker itself.
    pub removed_bags: Vec<ShellBagPath>,
    /// Per node, the declared order and the enumerated order, recorded when
    /// the two differ.
    pub mru_anomalies: Vec<(ShellBagPath, (Vec<u32>, Vec<u32>))>,
    /// Per view-state slot, the window records.
    pub node_slots: Vec<(NodeSlot, Vec<(String, WindowBagInfo)>)>,
}

/// The two trees read for one user.
#[derive(Debug)]
pub struct ShellBags {
    pub ntuser: ShellBagList,
    pub usr_class: ShellBagList,
}

/// The map a pair list denotes: later pairs override earlier ones.
pub open spec fn entries_map(s: Seq<(ShellBagPath, (Option<u32>, ShellItem))>) -> Map<
    Seq<u32>,
    (Option<u32>, ShellItemV),
>
    decreases s.len(),
{
    if s.len() == 0 {
        Map::empty()
    } else {
        entries_map(s.drop_last()).insert(s.last().0@, (s.last().1.0, s.last().1.1@))
    }
}

/// The anomaly map a pair list denotes.
pub open spec fn anoms_map(s: Seq<(ShellBagPath, (Vec<u32>, Vec<u32>))>) -> Map<
    Seq<u32>,
    (Seq<u32>, Seq<u32>),
>
    decreases s.len(),
{
    if s.len() == 0 {
        Map::empty()
    } else {
        anoms_map(s.drop_last()).insert(s.last().0@, (s.last().1.0@, s.last().1.1@))
    }
}

/// Whether the entry list holds each path at most once.
pub open spec fn wf_entries(s: Seq<(ShellBagPath, (Option<u32>, ShellItem))>) -> bool {
    forall|i: int, j: int| 0 <= i < j < s.len() ==> s[i].0@ != s[j].0@
}

impl ShellBagList {
    /// An empty tree.
    pub fn new() -> (r: ShellBagList)
        ensures
            r.list@.len() == 0,
            r.removed_bags@.len() == 0,
            r.mru_anomalies@.len() == 0,
            r.node_slots@.len() == 0,
            wf_entries(r.list@),
    {
        ShellBagList {
            list: Vec::new(),
            removed_bags: Vec::new(),
            mru_anomalies: Vec::new(),
            node_slots: Vec::new(),
        }
    }
}

/// The declared visit order held in a raw order value: its little-endian
/// 32-bit words, the trailing sentinel word excluded, a ragged tail
/// ignored.
pub open spec fn mru_list_spec(b: Seq<u8>) -> Seq<u32> {
    if b.len() < 4 {
        Seq::empty()
    } else {
        Seq::new(((b.len() - 4) / 4) as nat, |i: int| le32(b, 4 * i))
    }
}

/// The declared order of a node, when its order value is present and
/// binary.
pub open spec fn mru_ids_spec(node: RegNode) -> Option<Seq<u32>> {
    match node_value_spec(node, "MRUListEx"@) {
        Some(RegValue::Bin(b)) => Some(mru_list_spec(b@)),
        _ => None,
    }
}

/// The numeric child-key names of a node, in enumeration order; names that
/// do not parse as numbers are skipped.
pub open spec fn actual_order_spec(node: RegNode) -> Seq<u32> {
    numeric_names(node.keys@)
}

pub open spec fn numeric_names(keys: Seq<(String, RegNode)>) -> Seq<u32>
    decreases keys.len(),
{
    if keys.len() == 0 {
        Seq::empty()
    } else {
        let rest = numeric_names(keys.skip(1));
        match parse_u32_spec(keys[0].0@) {
            Some(v) => seq![v] + rest,
            None => rest,
        }
    }
}

/// The optional view-state slot of a node.
pub open spec fn node_slot_spec(node: RegNode) -> Option<u32> {
    match node_value_spec(node, "NodeSlot"@) {
        Some(RegValue::Num(v)) => Some(v),
        _ => None,
    }
}

/// Reads the declared visit order of a node: the little-endian 32-bit words
/// of the order value, the trailing sentinel excluded.  A node without a
/// binary order value yields the error.
pub fn get_mru_list(node: &RegNode) -> (r: Result<Vec<u32>, StoreError>)
    ensures
        match r {
            Ok(ids) => mru_ids_spec(*node) == Some(ids@),
            Err(e) => mru_ids_spec(*node) is None && e == StoreError::ValueAbsent,
        },
{
    let b = match read_value(node, "MRUListEx") {
        Some(RegValue::Bin(b)) => b,
        _ => {
            return Err(StoreError::ValueAbsent);
        },
    };
    let blen = b.len();
    let mut ids: Vec<u32> = Vec::new();
    if blen < 4 {
        proof {
            assert(ids@ =~= mru_list_spec(b@));
        }
        return Ok(ids);
    }
    let n = (blen - 4) / 4;
    let mut i: usize = 0;
    while i < n
        invariant
            0 <= i <= n,
            4 * n + 4 <= blen,
            blen == b@.len(),
            n == (b@.len() - 4) / 4,
            ids@.len() == i,
            forall|k: int| 0 <= k < i ==> ids@[k] == le32(b@, 4 * k),
        decreases n - i,
    {
        proof {
            assert(4 * (i as int) + 4 <= 4 * (n as int)) by (nonlinear_arith)
                requires
                    i < n,
            ;
        }
        let w = crate::item::read_le32(b, 4 * i);
        ids.push(w);
        i = i + 1;
    }
    proof {
        assert(ids@ =~= mru_list_spec(b@));
    }
    Ok(ids)
}

/// Reads the numeric child-key names of a node in the store's enumeration
/// order, skipping names that do not parse as numbers.
pub fn actual_child_order(node: &RegNode) -> (r: Vec<u32>)
    ensures
        r@ == actual_order_spec(*node),
{
    let n = node.keys.len();
    let mut out: Vec<u32> = Vec::new();
    let mut i: usize = 0;
    proof {
        assert(node.keys@.skip(0) =~= node.keys@);
        assert(out@ + numeric_names(node.keys@.skip(0)) =~= numeric_names(node.keys@));
    }
    while i < n
        invariant
            0 <= i <= n,
            n == node.keys@.len(),
            numeric_names(node.keys@) == out@ + numeric_names(node.keys@.skip(i as int)),
        decreases n - i,
    {
        proof {
            assert(node.keys@.skip(i as int)[0] == node.keys@[i as int]);
            assert(node.keys@.skip(i as int).skip(1) =~= node.keys@.skip(i + 1));
        }
        let ghost prev = out@;
        match parse_u32_name(node.keys[i].0.as_str()) {
            Some(v) => {
                out.push(v);
                proof {
                    assert(out@ =~= prev + seq![v]);
                    assert(out@ + numeric_names(node.keys@.skip(i + 1)) =~= prev + numeric_names(
                        node.keys@.skip(i as int),
                    ));
                }
            },
            None => {},
        }
        i = i + 1;
    }
    proof {
        assert(node.keys@.skip(n as int) =~= Seq::<(String, RegNode)>::empty());
        assert(out@ + numeric_names(node.keys@.skip(n as int)) =~= out@);
    }
    out
}

/// Compares two number lists.
pub fn vec_u32_eq(a: &Vec<u32>, b: &Vec<u32>) -> (r: bool)
    ensures
        r == (a@ == b@),
{
    let n = a.len();
    if n != b.len() {
        proof {
            assert(a@ != b@);
        }
        return false;
    }
    let mut i: usize = 0;
    while i < n
        invariant
            0 <= i <= n,
            n == a@.len() == b@.len(),
            forall|j: int| 0 <= j < i ==> a@[j] == b@[j],
        decreases n - i,
    {
        if a[i] != b[i] {
            return false;
        }
        i = i + 1;
    }
    proof {
        assert(a@ =~= b@);
    }
    true
}

/// What one walk of a node yields: the tree entries below and at the node's
/// children, and the anomaly records of the node and its descendants.  A
/// node whose order value cannot be read yields nothing.
pub open spec fn walk_spec(node: RegNode, route: Seq<u32>) -> (Map<
    Seq<u32>,
    (Option<u32>, ShellItemV),
>, Map<Seq<u32>, (Seq<u32>, Seq<u32>)>)
    decreases node, (match mru_ids_spec(node) {
        Some(ids) => ids.len() + 1,
        None => 0,
    }),
{
    match mru_ids_spec(node) {
        None => (Map::empty(), Map::empty()),
        Some(ids) => {
            let sub = walk_from(node, route, ids, 0);
            let actual = actual_order_spec(node);
            if ids != actual {
                (sub.0, sub.1.insert(route, (ids, actual)))
            } else {
                sub
            }
        },
    }
}

/// The part of a walk contributed by the declared order from position `i`
/// on: each identifier whose record decodes adds its subtree, then its own
/// entry; identifiers whose value is missing or undecodable are skipped.
pub open spec fn walk_from(node: RegNode, route: Seq<u32>, ids: Seq<u32>, i: int) -> (Map<
    Seq<u32>,
    (Option<u32>, ShellItemV),
>, Map<Seq<u32>, (Seq<u32>, Seq<u32>)>)
    decreases node, ids.len() - i,
{
    if i < 0 || i >= ids.len() {
        (Map::empty(), Map::empty())
    } else {
        let rest = walk_from(node, route, ids, i + 1);
        let e = ids[i];
        match node_value_spec(node, dec_str(e as int)) {
            Some(RegValue::Bin(bytes)) => match decode_item_spec(bytes@) {
                Some(item) => {
                    let child_path = route.push(e);
                    let sub = match node_key_spec(node, dec_str(e as int)) {
                        Some(child) => {
                            proof {
                                lemma_node_key_decreases(node, dec_str(e as int));
                            }
                            let s = walk_spec(child, child_path);
                            (s.0, s.1, node_slot_spec(child))
                        },
                        None => (
                            Map::<Seq<u32>, (Option<u32>, ShellItemV)>::empty(),
                            Map::<Seq<u32>, (Seq<u32>, Seq<u32>)>::empty(),
                            None::<u32>,
                        ),
                    };
                    (
                        sub.0.insert(child_path, (sub.2, item)).union_prefer_right(rest.0),
                        sub.1.union_prefer_right(rest.1),
                    )
                },
                None => rest,
            },
            _ => rest,
        }
    }
}

/// A named subkey is structurally below its node.
pub proof fn lemma_node_key_decreases(node: RegNode, name: Seq<char>)
    requires
        node_key_spec(node, name) is Some,
    ensures
        decreases_to!(node => node_key_spec(node, name)->0),
{
    broadcast use vstd::std_specs::vec::axiom_vec_decreases_to_view;
    broadcast use vstd::seq::axiom_seq_index_decreases;

    let child = node_key_spec(node, name)->0;
    let j = lemma_node_key_index(node.keys@, name);
    assert(decreases_to!(node => node.keys));
    assert(decreases_to!(node.keys => node.keys@));
    assert(decreases_to!(node.keys@ => node.keys@[j]));
    assert(decreases_to!(node.keys@[j] => node.keys@[j].1));
}

/// A pair list's map holds a key exactly when some pair carries it.
pub proof fn lemma_entries_map_contains(
    s: Seq<(ShellBagPath, (Option<u32>, ShellItem))>,
    k: Seq<u32>,
)
    ensures
        entries_map(s).contains_key(k) <==> exists|i: int| 0 <= i < s.len() && s[i].0@ == k,
    decreases s.len(),
{
    if s.len() > 0 {
        lemma_entries_map_contains(s.drop_last(), k);
        if s.last().0@ == k {
            assert(s[s.len() - 1].0@ == k);
        } else if entries_map(s).contains_key(k) {
            let i = choose|i: int| 0 <= i < s.drop_last().len() && s.drop_last()[i].0@ == k;
            assert(s[i].0@ == k);
        } else {
            if exists|i: int| 0 <= i < s.len() && s[i].0@ == k {
                let i = choose|i: int| 0 <= i < s.len() && s[i].0@ == k;
                assert(s.drop_last()[i].0@ == k);
            }
        }
    }
}

/// Removing the one pair that carries a key removes that key from the map.
proof fn lemma_entries_map_remove(s: Seq<(ShellBagPath, (Option<u32>, ShellItem))>, j: int)
    requires
        0 <= j < s.len(),
        wf_entries(s),
    ensures
        entries_map(s.remove(j)) == entries_map(s).remove(s[j].0@),
    decreases s.len(),
{
    let k = s[j].0@;
    assert(wf_entries(s.drop_last()));
    if j == s.len() - 1 {
        assert(s.remove(j) =~= s.drop_last());
        lemma_entries_map_contains(s.drop_last(), k);
        assert(!entries_map(s.drop_last()).contains_key(k));
        assert(entries_map(s.drop_last()).insert(k, (s.last().1.0, s.last().1.1@)).remove(k)
            =~= entries_map(s.drop_last()));
    } else {
        assert(s.remove(j).drop_last() =~= s.drop_last().remove(j));
        assert(s.remove(j).last() == s.last());
        assert(s.drop_last()[j] == s[j]);
        lemma_entries_map_remove(s.drop_last(), j);
        assert(s.last().0@ != k);
        assert(entries_map(s.drop_last()).insert(s.last().0@, (s.last().1.0, s.last().1.1@)).remove(
            k,
        ) =~= entries_map(s.drop_last()).remove(k).insert(
            s.last().0@,
            (s.last().1.0, s.last().1.1@),
        ));
    }
}

/// Replaces the entry at `path`, or adds one; the map gains exactly that
/// binding.
fn insert_entry(
    list: &mut Vec<(ShellBagPath, (Option<u32>, ShellItem))>,
    path: ShellBagPath,
    slot: Option<u32>,
    item: ShellItem,
)
    requires
        wf_entries(old(list)@),
    ensures
        wf_entries(final(list)@),
        entries_map(final(list)@) == entries_map(old(list)@).insert(path@, (slot, item@)),
{
    let n = list.len();
    let mut i: usize = 0;
    let mut found: bool = false;
    let mut at: usize = 0;
    while i < n
        invariant
            0 <= i <= n,
            n == list@.len(),
            !found ==> forall|j: int| 0 <= j < i ==> list@[j].0@ != path@,
            found ==> at < n && list@[at as int].0@ == path@,
        decreases n - i,
    {
        if !found && list[i].0.same_as(&path) {
            found = true;
            at = i;
        }
        i = i + 1;
    }
    let ghost orig = list@;
    if found {
        proof {
            lemma_entries_map_remove(list@, at as int);
        }
        list.remove(at);
        proof {
            assert(wf_entries(list@)) by {
                assert forall|a: int, b: int| 0 <= a < b < list@.len() implies list@[a].0@
                    != list@[b].0@ by {
                    if a < at {
                        assert(list@[a] == orig[a]);
                    } else {
                        assert(list@[a] == orig[a + 1]);
                    }
                    if b < at {
                        assert(list@[b] == orig[b]);
                    } else {
                        assert(list@[b] == orig[b + 1]);
                    }
                }
            }
            lemma_entries_map_contains(list@, path@);
            assert(!entries_map(list@).contains_key(path@)) by {
                if exists|x: int| 0 <= x < list@.len() && list@[x].0@ == path@ {
                    let x = choose|x: int| 0 <= x < list@.len() && list@[x].0@ == path@;
                    if x < at {
                        assert(orig[x].0@ == path@);
                    } else {
                        assert(orig[x + 1].0@ == path@);
                    }
                }
            }
        }
    } else {
        proof {
            lemma_entries_map_contains(list@, path@);
            assert(!entries_map(list@).contains_key(path@));
        }
    }
    let ghost mid = list@;
    let ghost pathv = path@;
    list.push((path, (slot, item)));
    proof {
        assert(list@.drop_last() =~= mid);
        assert(entries_map(list@) == entries_map(mid).insert(pathv, (slot, item@)));
        assert(entries_map(mid).insert(pathv, (slot, item@)) =~= entries_map(orig).insert(
            pathv,
            (slot, item@),
        ));
        assert(wf_entries(list@)) by {
            assert forall|a: int, b: int| 0 <= a < b < list@.len() implies list@[a].0@
                != list@[b].0@ by {
                if b < list@.len() - 1 {
                    assert(list@[a] == mid[a] && list@[b] == mid[b]);
                } else {
                    assert(list@[a] == mid[a]);
                    lemma_entries_map_contains(mid, mid[a].0@);
                    assert(entries_map(mid).contains_key(mid[a].0@));
                }
            }
        }
    }
}

/// The index a successful name lookup found.
pub proof fn lemma_node_key_index(keys: Seq<(String, RegNode)>, name: Seq<char>) -> (j: int)
    requires
        node_key_from(keys, name) is Some,
    ensures
        0 <= j < keys.len(),
        keys[j].1 == node_key_from(keys, name)->0,
    decreases keys.len(),
{
    if keys[0].0@ == name {
        0
    } else {
        let j = lemma_node_key_index(keys.skip(1), name);
        assert(keys.skip(1)[j] == keys[j + 1]);
        j + 1
    }
}

/// Walks one node of the MRU chain: follows the declared order, decodes
/// each child's record, recurses into each decodable child's subkey, and
/// merges the results into `data`.  A node whose declared order cannot be
/// read yields the error and leaves `data` unchanged; the caller decides
/// whether that is fatal — it is at the root of a traversal, and it means
/// an empty subtree anywhere below.
pub fn read_mru_bag(node: &RegNode, data: &mut ShellBagList, parent_route: &ShellBagPath) -> (r:
    Result<(), StoreError>)
    requires
        wf_entries(old(data).list@),
    ensures
        wf_entries(final(data).list@),
        (r is Ok) == (mru_ids_spec(*node) is Some),
        entries_map(final(data).list@) == entries_map(old(data).list@).union_prefer_right(
            walk_spec(*node, parent_route@).0,
        ),
        anoms_map(final(data).mru_anomalies@) == anoms_map(
            old(data).mru_anomalies@,
        ).union_prefer_right(walk_spec(*node, parent_route@).1),
        final(data).node_slots@ == old(data).node_slots@,
        final(data).removed_bags@ == old(data).removed_bags@,
    decreases *node,
{
    let ghost route = parent_route@;
    let ids = match get_mru_list(node) {
        Ok(v) => v,
        Err(e) => {
            proof {
                assert(entries_map(data.list@).union_prefer_right(
                    walk_spec(*node, route).0,
                ) =~= entries_map(data.list@));
                assert(anoms_map(data.mru_anomalies@).union_prefer_right(
                    walk_spec(*node, route).1,
                ) =~= anoms_map(data.mru_anomalies@));
            }
            return Err(e);
        },
    };
    let mru_key_list = actual_child_order(node);
    let anomaly = !vec_u32_eq(&ids, &mru_key_list);
    let n = ids.len();
    let ghost idsv = ids@;
    let ghost entries0 = entries_map(data.list@);
    let ghost anoms0 = anoms_map(data.mru_anomalies@);
    let mut i: usize = 0;
    while i < n
        invariant
            wf_entries(data.list@),
            0 <= i <= n,
            n == idsv.len(),
            ids@ == idsv,
            route == parent_route@,
            mru_ids_spec(*node) == Some(idsv),
            entries_map(data.list@).union_prefer_right(walk_from(*node, route, idsv, i as int).0)
                == entries0.union_prefer_right(walk_from(*node, route, idsv, 0).0),
            anoms_map(data.mru_anomalies@).union_prefer_right(
                walk_from(*node, route, idsv, i as int).1,
            ) == anoms0.union_prefer_right(walk_from(*node, route, idsv, 0).1),
            data.node_slots@ == old(data).node_slots@,
            data.removed_bags@ == old(data).removed_bags@,
        decreases n - i,
    {
        let e = ids[i];
        let name = u64_to_string(e as u64);
        let ghost pre_e = entries_map(data.list@);
        let ghost pre_a = anoms_map(data.mru_anomalies@);
        let ghost wf_here = walk_from(*node, route, idsv, i as int);
        let ghost wf_next = walk_from(*node, route, idsv, i + 1);
        match read_value(node, name.as_str()) {
            Some(RegValue::Bin(bytes)) => {
                let child_path = parent_route.child(e);
                let ghost cpv = child_path@;
                match parse_node_value(bytes, &child_path.0) {
                    Some(item) => {
                        let ghost itemv = item@;
                        let slot: Option<u32>;
                        let ghost mut sub_e: Map<Seq<u32>, (Option<u32>, ShellItemV)> = Map::empty();
                        let ghost mut sub_a: Map<Seq<u32>, (Seq<u32>, Seq<u32>)> = Map::empty();
                        match open_subkey(node, name.as_str()) {
                            Some(child) => {
                                proof {
                                    lemma_node_key_decreases(*node, name@);
                                }
                                let _ = read_mru_bag(child, data, &child_path);
                                slot = match read_value(child, "NodeSlot") {
                                    Some(RegValue::Num(v)) => Some(*v),
                                    _ => None,
                                };
                                proof {
                                    sub_e = walk_spec(*child, child_path@).0;
                                    sub_a = walk_spec(*child, child_path@).1;
                                    assert(slot == node_slot_spec(*child));
                                    assert(entries_map(data.list@) == pre_e.union_prefer_right(
                                        sub_e,
                                    ));
                                    assert(anoms_map(data.mru_anomalies@)
                                        == pre_a.union_prefer_right(sub_a));
                                }
                            },
                            None => {
                                slot = None;
                                proof {
                                    sub_e = Map::empty();
                                    sub_a = Map::empty();
                                    assert(entries_map(data.list@) == pre_e.union_prefer_right(
                                        sub_e,
                                    )) by {
                                        assert(pre_e.union_prefer_right(
                                            Map::<Seq<u32>, (Option<u32>, ShellItemV)>::empty(),
                                        ) =~= pre_e);
                                    }
                                    assert(anoms_map(data.mru_anomalies@)
                                        == pre_a.union_prefer_right(sub_a)) by {
                                        assert(pre_a.union_prefer_right(
                                            Map::<Seq<u32>, (Seq<u32>, Seq<u32>)>::empty(),
                                        ) =~= pre_a);
                                    }
                                }
                            },
                        }
                        let ghost mid_map = entries_map(data.list@);
                        insert_entry(&mut data.list, child_path, slot, item);
                        proof {
                            let cp = route.push(e);
                            assert(cpv == cp);
                            assert(entries_map(data.list@) == mid_map.insert(cp, (slot, itemv)));
                            let dname = dec_str(idsv[i as int] as int);
                            assert(name@ == dname);
                            assert(node_value_spec(*node, dname) == Some(RegValue::Bin(*bytes)));
                            assert(decode_item_spec(bytes@) == Some(itemv));
                            let step = sub_e.insert(cp, (slot, itemv));
                            assert(wf_here.0 == step.union_prefer_right(wf_next.0));
                            assert(wf_here.1 == sub_a.union_prefer_right(wf_next.1));
                            assert(entries_map(data.list@) == pre_e.union_prefer_right(
                                sub_e,
                            ).insert(cp, (slot, itemv)));
                            assert(entries_map(data.list@).union_prefer_right(wf_next.0)
                                =~= pre_e.union_prefer_right(wf_here.0));
                            assert(anoms_map(data.mru_anomalies@).union_prefer_right(wf_next.1)
                                =~= pre_a.union_prefer_right(wf_here.1));
                        }
                    },
                    None => {
                        proof {
                            assert(wf_here == wf_next);
                        }
                    },
                }
            },
            _ => {
                proof {
                    assert(wf_here == wf_next);
                }
            },
        }
        i = i + 1;
    }
    proof {
        assert(walk_from(*node, route, idsv, n as int).0 =~= Map::<
            Seq<u32>,
            (Option<u32>, ShellItemV),
        >::empty());
        assert(walk_from(*node, route, idsv, n as int).1 =~= Map::<
            Seq<u32>,
            (Seq<u32>, Seq<u32>),
        >::empty());
        assert(entries_map(data.list@).union_prefer_right(
            walk_from(*node, route, idsv, n as int).0,
        ) =~= entries_map(data.list@));
        assert(anoms_map(data.mru_anomalies@).union_prefer_right(
            walk_from(*node, route, idsv, n as int).1,
        ) =~= anoms_map(data.mru_anomalies@));
    }
    if anomaly {
        let ghost pre_a = anoms_map(data.mru_anomalies@);
        let ghost prevec = data.mru_anomalies@;
        data.mru_anomalies.push((parent_route.duplicate(), (ids, mru_key_list)));
        proof {
            assert(data.mru_anomalies@.drop_last() =~= prevec);
            assert(anoms_map(data.mru_anomalies@) == pre_a.insert(
                route,
                (idsv, actual_order_spec(*node)),
            ));
            assert(anoms_map(data.mru_anomalies@) =~= anoms0.union_prefer_right(
                walk_spec(*node, route).1,
            ));
        }
    } else {
        proof {
            assert(walk_spec(*node, route).1 == walk_from(*node, route, idsv, 0).1);
        }
    }
    proof {
        assert(walk_spec(*node, route).0 == walk_from(*node, route, idsv, 0).0);
    }
    Ok(())
}

/// The per-slot window records of the bag store: one entry per numeric key
/// name, in enumeration order.
pub open spec fn all_bags_spec(keys: Seq<(String, RegNode)>) -> Seq<
    (u32, Seq<(Seq<char>, crate::windows_info::WindowBagInfoV)>),
>
    decreases keys.len(),
{
    if keys.len() == 0 {
        Seq::empty()
    } else {
        let rest = all_bags_spec(keys.skip(1));
        match parse_u32_spec(keys[0].0@) {
            Some(slot) => seq![(slot, windows_of_spec(keys[0].1, slot))] + rest,
            None => rest,
        }
    }
}

/// The views of a slot table, pair by pair.
pub open spec fn slots_view(s: Seq<(NodeSlot, Vec<(String, WindowBagInfo)>)>) -> Seq<
    (u32, Seq<(Seq<char>, crate::windows_info::WindowBagInfoV)>),
> {
    Seq::new(s.len(), |i: int| (s[i].0.0, out_spec(s[i].1@)))
}

/// Reads the window view-state table: every numeric key of the bag store
/// contributes its slot number and its window records; non-numeric names
/// are skipped.  The tree and anomaly lists of the result are empty.
pub fn read_all_bags(bags_key: &RegNode) -> (r: ShellBagList)
    ensures
        r.list@.len() == 0,
        wf_entries(r.list@),
        r.removed_bags@.len() == 0,
        r.mru_anomalies@.len() == 0,
        slots_view(r.node_slots@) == all_bags_spec(bags_key.keys@),
{
    let mut out = ShellBagList::new();
    let n = bags_key.keys.len();
    let mut i: usize = 0;
    proof {
        assert(bags_key.keys@.skip(0) =~= bags_key.keys@);
        assert(slots_view(out.node_slots@) + all_bags_spec(bags_key.keys@.skip(0)) =~= all_bags_spec(
            bags_key.keys@,
        ));
    }
    while i < n
        invariant
            0 <= i <= n,
            n == bags_key.keys@.len(),
            out.list@.len() == 0,
            out.removed_bags@.len() == 0,
            out.mru_anomalies@.len() == 0,
            all_bags_spec(bags_key.keys@) == slots_view(out.node_slots@) + all_bags_spec(
                bags_key.keys@.skip(i as int),
            ),
        decreases n - i,
    {
        proof {
            assert(bags_key.keys@.skip(i as int)[0] == bags_key.keys@[i as int]);
            assert(bags_key.keys@.skip(i as int).skip(1) =~= bags_key.keys@.skip(i + 1));
        }
        let ghost prev = out.node_slots@;
        match parse_u32_name(bags_key.keys[i].0.as_str()) {
            Some(slot) => {
                let windows = read_windows_in_bag(&bags_key.keys[i].1, slot);
                out.node_slots.push((NodeSlot(slot), windows));
                proof {
                    assert(out_spec(out.node_slots@.last().1@) =~= windows_of_spec(
                        bags_key.keys@[i as int].1,
                        slot,
                    ));
                    assert(slots_view(out.node_slots@) =~= slots_view(prev) + seq![
                        (slot, windows_of_spec(bags_key.keys@[i as int].1, slot)),
                    ]);
                    assert(slots_view(out.node_slots@) + all_bags_spec(
                        bags_key.keys@.skip(i + 1),
                    ) =~= slots_view(prev) + all_bags_spec(bags_key.keys@.skip(i as int)));
                }
            },
            None => {},
        }
        i = i + 1;
    }
    proof {
        assert(bags_key.keys@.skip(n as int) =~= Seq::<(String, RegNode)>::empty());
        assert(slots_view(out.node_slots@) + all_bags_spec(bags_key.keys@.skip(n as int))
            =~= slots_view(out.node_slots@));
    }
    out
}

/// Reads one hive root: the window table from its bag store, then the tree
/// walked from its MRU chain root.  Failure to open either key, or to read
/// the root's declared order, is fatal for the hive.
pub fn read_hive(shell: &RegNode) -> (r: Result<ShellBagList, StoreError>)
    ensures
        match r {
            Ok(list) => {
                &&& node_key_spec(*shell, "Bags"@) is Some
                &&& node_key_spec(*shell, "BagMRU"@) is Some
                &&& wf_entries(list.list@)
                &&& entries_map(list.list@) == walk_spec(
                    node_key_spec(*shell, "BagMRU"@)->0,
                    Seq::empty(),
                ).0
                &&& anoms_map(list.mru_anomalies@) == walk_spec(
                    node_key_spec(*shell, "BagMRU"@)->0,
                    Seq::empty(),
                ).1
                &&& slots_view(list.node_slots@) == all_bags_spec(
                    node_key_spec(*shell, "Bags"@)->0.keys@,
                )
                &&& mru_ids_spec(node_key_spec(*shell, "BagMRU"@)->0) is Some
            },
            Err(_) => node_key_spec(*shell, "Bags"@) is None || node_key_spec(*shell, "BagMRU"@)
                is None || mru_ids_spec(node_key_spec(*shell, "BagMRU"@)->0) is None,
        },
{
    let bags_key = match open_subkey(shell, "Bags") {
        Some(k) => k,
        None => {
            return Err(StoreError::KeyAbsent);
        },
    };
    let mru_key = match open_subkey(shell, "BagMRU") {
        Some(k) => k,
        None => {
            return Err(StoreError::KeyAbsent);
        },
    };
    let mut list = read_all_bags(bags_key);
    let root = crate::bagpath::ShellBagPath(Vec::new());
    let res = read_mru_bag(mru_key, &mut list, &root);
    match res {
        Ok(_) => {
            proof {
                assert(Map::<Seq<u32>, (Option<u32>, ShellItemV)>::empty().union_prefer_right(
                    walk_spec(*mru_key, Seq::empty()).0,
                ) =~= walk_spec(*mru_key, Seq::empty()).0);
                assert(Map::<Seq<u32>, (Seq<u32>, Seq<u32>)>::empty().union_prefer_right(
                    walk_spec(*mru_key, Seq::empty()).1,
                ) =~= walk_spec(*mru_key, Seq::empty()).1);
            }
            Ok(list)
        },
        Err(e) => Err(e),
    }
}

/// Reads both hive roots of one user: the per-application-class store and
/// the per-user shell store.  A failure in either root is fatal for the
/// pair.
pub fn read_shell_bags(shell_usrclass: &RegNode, shell_ntuser: &RegNode) -> (r: Result<
    ShellBags,
    StoreError,
>)
    ensures
        match r {
            Ok(bags) => {
                &&& wf_entries(bags.usr_class.list@)
                &&& wf_entries(bags.ntuser.list@)
                &&& node_key_spec(*shell_usrclass, "BagMRU"@) is Some
                &&& node_key_spec(*shell_ntuser, "BagMRU"@) is Some
                &&& entries_map(bags.usr_class.list@) == walk_spec(
                    node_key_spec(*shell_usrclass, "BagMRU"@)->0,
                    Seq::empty(),
                ).0
                &&& entries_map(bags.ntuser.list@) == walk_spec(
                    node_key_spec(*shell_ntuser, "BagMRU"@)->0,
                    Seq::empty(),
                ).0
            },
            Err(_) => node_key_spec(*shell_usrclass, "Bags"@) is None || node_key_spec(
                *shell_usrclass,
                "BagMRU"@,
            ) is None || mru_ids_spec(node_key_spec(*shell_usrclass, "BagMRU"@)->0) is None
                || node_key_spec(*shell_ntuser, "Bags"@) is None || node_key_spec(
                *shell_ntuser,
                "BagMRU"@,
            ) is None || mru_ids_spec(node_key_spec(*shell_ntuser, "BagMRU"@)->0) is None,
        },
{
    let usr_class = match read_hive(shell_usrclass) {
        Ok(l) => l,
        Err(e) => {
            return Err(e);
        },
    };
    let ntuser = match read_hive(shell_ntuser) {
        Ok(l) => l,
        Err(e) => {
            return Err(e);
        },
    };
    Ok(ShellBags { ntuser, usr_class })
}

/// A node whose declared order disagrees with the enumerated order of its
/// child keys gets exactly one anomaly record, at its own path, holding
/// both orders; the walk below it still follows the declared order.
pub proof fn lemma_anomaly_recorded(node: RegNode, route: Seq<u32>)
    requires
        mru_ids_spec(node) is Some,
        mru_ids_spec(node)->0 != actual_order_spec(node),
    ensures
        walk_spec(node, route).1.contains_key(route),
        walk_spec(node, route).1[route] == (mru_ids_spec(node)->0, actual_order_spec(node)),
{
}

/// Every anomaly a partial walk records lies strictly below the node's own
/// path.
proof fn lemma_walk_from_anom_keys(node: RegNode, route: Seq<u32>, ids: Seq<u32>, i: int)
    ensures
        forall|k: Seq<u32>|
            #[trigger] walk_from(node, route, ids, i).1.contains_key(k) ==> k.len() > route.len(),
    decreases node, ids.len() - i,
{
    if !(i < 0 || i >= ids.len()) {
        lemma_walk_from_anom_keys(node, route, ids, i + 1);
        let e = ids[i];
        let rest = walk_from(node, route, ids, i + 1);
        match node_value_spec(node, dec_str(e as int)) {
            Some(RegValue::Bin(bytes)) => match decode_item_spec(bytes@) {
                Some(item) => {
                    let child_path = route.push(e);
                    match node_key_spec(node, dec_str(e as int)) {
                        Some(child) => {
                            lemma_node_key_decreases(node, dec_str(e as int));
                            lemma_walk_anom_keys(child, child_path);
                            let sub_a = walk_spec(child, child_path).1;
                            assert forall|k: Seq<u32>|
                                #[trigger] walk_from(node, route, ids, i).1.contains_key(k)
                                    implies k.len() > route.len() by {
                                assert(sub_a.contains_key(k) || rest.1.contains_key(k));
                                if sub_a.contains_key(k) {
                                    assert(k.len() >= child_path.len());
                                }
                            }
                        },
                        None => {
                            assert forall|k: Seq<u32>|
                                #[trigger] walk_from(node, route, ids, i).1.contains_key(k)
                                    implies k.len() > route.len() by {
                                assert(Map::<Seq<u32>, (Seq<u32>, Seq<u32>)>::empty().contains_key(
                                    k,
                                ) || rest.1.contains_key(k));
                            }
                        },
                    }
                },
                None => {},
            },
            _ => {},
        }
    }
}

/// Every anomaly a walk records lies at the node's own path or below it.
proof fn lemma_walk_anom_keys(node: RegNode, route: Seq<u32>)
    ensures
        forall|k: Seq<u32>|
            #[trigger] walk_spec(node, route).1.contains_key(k) ==> k.len() >= route.len() && (
            k.len() == route.len() ==> k == route),
    decreases node, (match mru_ids_spec(node) {
        Some(ids) => ids.len() + 1,
        None => 0,
    }),
{
    match mru_ids_spec(node) {
        None => {},
        Some(ids) => {
            lemma_walk_from_anom_keys(node, route, ids, 0);
            let sub = walk_from(node, route, ids, 0);
            if ids != actual_order_spec(node) {
                assert forall|k: Seq<u32>|
                    #[trigger] walk_spec(node, route).1.contains_key(k) implies k.len()
                    >= route.len() && (k.len() == route.len() ==> k == route) by {
                    assert(k == route || sub.1.contains_key(k));
                }
            }
        },
    }
}

/// A node whose declared order matches the enumerated order records no
/// anomaly at its own path.
pub proof fn lemma_no_anomaly_when_orders_agree(node: RegNode, route: Seq<u32>)
    requires
        mru_ids_spec(node) is Some,
        mru_ids_spec(node)->0 == actual_order_spec(node),
    ensures
        !walk_spec(node, route).1.contains_key(route),
{
    let ids = mru_ids_spec(node)->0;
    lemma_walk_from_anom_keys(node, route, ids, 0);
    assert(walk_spec(node, route).1 == walk_from(node, route, ids, 0).1);
    if walk_spec(node, route).1.contains_key(route) {
        assert(route.len() > route.len());
    }
}

} // verus!
