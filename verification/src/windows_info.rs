//! Per-window display preferences stored beside the MRU chain: each numeric
//! bag key holds windows, each window holds one subkey whose values carry
//! the view customization.

use vstd::prelude::*;
use crate::store::RegNode;
use crate::store::RegValue;
use crate::store::node_value_spec;
use crate::store::read_value;
use crate::guid::vid_of;
use crate::guid::parse_vid;

verus! {

/// The display preferences of one window over one bag.
#[derive(Debug, Clone)]
pub struct WindowBagInfo {
    pub slot: u32,
    pub uuid: u128,
    pub coll_info: Vec<u8>,
    pub f_flags: u32,
    pub group_by_direction: u32,
    pub group_by_key_fmtid: String,
    pub group_by_key_pid: u32,
    pub group_view: u32,
    pub icon_size: u32,
    pub logical_view_mode: u32,
    pub mode: u32,
    pub rev: u32,
    pub sort: Vec<u8>,
    pub vid: u128,
}

/// Mathematical image of a window record.
pub ghost struct WindowBagInfoV {
    pub slot: u32,
    pub uuid: u128,
    pub coll_info: Seq<u8>,
    pub f_flags: u32,
    pub group_by_direction: u32,
    pub group_by_key_fmtid: Seq<char>,
    pub group_by_key_pid: u32,
    pub group_view: u32,
    pub icon_size: u32,
    pub logical_view_mode: u32,
    pub mode: u32,
    pub rev: u32,
    pub sort: Seq<u8>,
    pub vid: u128,
}

impl View for WindowBagInfo {
    type V = WindowBagInfoV;

    open spec fn view(&self) -> WindowBagInfoV {
        WindowBagInfoV {
            slot: self.slot,
            uuid: self.uuid,
            coll_info: self.coll_info@,
            f_flags: self.f_flags,
            group_by_direction: self.group_by_direction,
            group_by_key_fmtid: self.group_by_key_fmtid@,
            group_by_key_pid: self.group_by_key_pid,
            group_view: self.group_view,
            icon_size: self.icon_size,
            logical_view_mode: self.logical_view_mode,
            mode: self.mode,
            rev: self.rev,
            sort: self.sort@,
            vid: self.vid,
        }
    }
}

/// The numeric value stored under `name`, or zero when absent or of another
/// kind.
pub open spec fn num_or_zero(node: RegNode, name: Seq<char>) -> u32 {
    match node_value_spec(node, name) {
        Some(RegValue::Num(v)) => v,
        _ => 0,
    }
}

/// The view-customization identifier parsed from the `Vid` text value, or
/// zero when absent, of another kind, or unparsable.
pub open spec fn vid_value(node: RegNode) -> u128 {
    match node_value_spec(node, "Vid"@) {
        Some(RegValue::Text(s)) => vid_of(s@),
        _ => 0,
    }
}

/// The window record read from the values of one customization subkey.
pub open spec fn window_info_spec(uuid_node: RegNode, slot: u32) -> WindowBagInfoV {
    WindowBagInfoV {
        slot,
        uuid: 0,
        coll_info: Seq::empty(),
        f_flags: num_or_zero(uuid_node, "FFlags"@),
        group_by_direction: num_or_zero(uuid_node, "GroupByDirection"@),
        group_by_key_fmtid: Seq::empty(),
        group_by_key_pid: num_or_zero(uuid_node, "GroupByKey:PID"@),
        group_view: num_or_zero(uuid_node, "GroupView"@),
        icon_size: num_or_zero(uuid_node, "IconSize"@),
        logical_view_mode: num_or_zero(uuid_node, "LogicalViewMode"@),
        mode: num_or_zero(uuid_node, "Mode"@),
        rev: num_or_zero(uuid_node, "Rev"@),
        sort: Seq::empty(),
        vid: vid_value(uuid_node),
    }
}

/// Reads the numeric value stored under `name`, zero when it is absent or
/// not numeric.
fn read_num_or_zero(node: &RegNode, name: &str) -> (r: u32)
    ensures
        r == num_or_zero(*node, name@),
{
    match read_value(node, name) {
        Some(RegValue::Num(v)) => *v,
        _ => 0,
    }
}

/// Assembles the window record of one customization subkey.
pub fn read_window_info(uuid_node: &RegNode, slot: u32) -> (r: WindowBagInfo)
    ensures
        r@ == window_info_spec(*uuid_node, slot),
{
    let vid = match read_value(uuid_node, "Vid") {
        Some(RegValue::Text(s)) => parse_vid(s.as_str()),
        _ => 0,
    };
    WindowBagInfo {
        slot,
        uuid: 0,
        coll_info: Vec::new(),
        f_flags: read_num_or_zero(uuid_node, "FFlags"),
        group_by_direction: read_num_or_zero(uuid_node, "GroupByDirection"),
        group_by_key_fmtid: String::new(),
        group_by_key_pid: read_num_or_zero(uuid_node, "GroupByKey:PID"),
        group_view: read_num_or_zero(uuid_node, "GroupView"),
        icon_size: read_num_or_zero(uuid_node, "IconSize"),
        logical_view_mode: read_num_or_zero(uuid_node, "LogicalViewMode"),
        mode: read_num_or_zero(uuid_node, "Mode"),
        rev: read_num_or_zero(uuid_node, "Rev"),
        sort: Vec::new(),
        vid,
    }
}

/// The windows of one bag key: each window subkey contributes its record,
/// read from the window's first subkey; a window without a subkey is
/// skipped.
pub open spec fn windows_of_spec(bag_node: RegNode, slot: u32) -> Seq<(Seq<char>, WindowBagInfoV)>
    decreases bag_node.keys@.len(),
{
    windows_from(bag_node.keys@, slot)
}

pub open spec fn windows_from(keys: Seq<(String, RegNode)>, slot: u32) -> Seq<
    (Seq<char>, WindowBagInfoV),
>
    decreases keys.len(),
{
    if keys.len() == 0 {
        Seq::empty()
    } else {
        let rest = windows_from(keys.skip(1), slot);
        let window = keys[0].1;
        if window.keys@.len() > 0 {
            seq![(keys[0].0@, window_info_spec(window.keys@[0].1, slot))] + rest
        } else {
            rest
        }
    }
}

/// Reads the windows of one bag key in enumeration order.
pub fn read_windows_in_bag(bag_node: &RegNode, node_slot: u32) -> (r: Vec<(String, WindowBagInfo)>)
    ensures
        r@.len() == windows_of_spec(*bag_node, node_slot).len(),
        forall|i: int|
            0 <= i < r@.len() ==> (#[trigger] r@[i].0@, r@[i].1@) == windows_of_spec(
                *bag_node,
                node_slot,
            )[i],
{
    let n = bag_node.keys.len();
    let mut out: Vec<(String, WindowBagInfo)> = Vec::new();
    let mut i: usize = 0;
    proof {
        assert(bag_node.keys@.skip(0) =~= bag_node.keys@);
        assert(out_spec(out@) + windows_from(bag_node.keys@.skip(0), node_slot) =~= windows_of_spec(
            *bag_node,
            node_slot,
        ));
    }
    while i < n
        invariant
            0 <= i <= n,
            n == bag_node.keys@.len(),
            windows_of_spec(*bag_node, node_slot) == out_spec(out@) + windows_from(
                bag_node.keys@.skip(i as int),
                node_slot,
            ),
        decreases n - i,
    {
        proof {
            assert(bag_node.keys@.skip(i as int)[0] == bag_node.keys@[i as int]);
            assert(bag_node.keys@.skip(i as int).skip(1) =~= bag_node.keys@.skip(i + 1));
        }
        let ghost prev = out@;
        let window = &bag_node.keys[i].1;
        if window.keys.len() > 0 {
            let info = read_window_info(&window.keys[0].1, node_slot);
            let name = bag_node.keys[i].0.clone();
            out.push((name, info));
            proof {
                assert(out_spec(out@) =~= out_spec(prev) + seq![
                    (out@.last().0@, out@.last().1@),
                ]);
                assert(out_spec(out@) + windows_from(bag_node.keys@.skip(i + 1), node_slot)
                    =~= out_spec(prev) + windows_from(bag_node.keys@.skip(i as int), node_slot));
            }
        }
        i = i + 1;
    }
    proof {
        assert(bag_node.keys@.skip(n as int) =~= Seq::<(String, RegNode)>::empty());
        assert(out_spec(out@) + windows_from(bag_node.keys@.skip(n as int), node_slot) =~= out_spec(
            out@,
        ));
    }
    out
}

/// The views of a window list, pair by pair.
pub open spec fn out_spec(s: Seq<(String, WindowBagInfo)>) -> Seq<(Seq<char>, WindowBagInfoV)> {
    Seq::new(s.len(), |i: int| (s[i].0@, s[i].1@))
}

} // verus!
