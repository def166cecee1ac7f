//! Display paths and the event timeline: every tree entry gets the full
//! path of display-name fragments along its chain, and every file entry
//! contributes one access, one modify and one create event, ordered by
//! timestamp with ties kept in visiting order.

use vstd::prelude::*;
use crate::bagpath::ShellBagPath;
use crate::bags::ShellBagList;
use crate::bags::ShellBags;
use crate::bags::entries_map;
use crate::bags::wf_entries;
use crate::date::time_text;
use crate::date::format_timestamp;
use crate::item::ShellItem;
use crate::item::ShellItemV;
use crate::strutil::push_char;

verus! {

/// What happened to a file at one instant.
#[derive(Clone, Copy, Debug, PartialEq, Eq, Structural)]
pub enum ShellBagAction {
    Modified,
    Access,
    Created,
}

/// One timeline event: an action on a folder path at an instant, for one
/// user.
#[derive(Clone, Debug)]
pub struct ShellBagTimeline {
    pub action: ShellBagAction,
    pub time: String,
    pub numeric_time: i64,
    pub folder: String,
    pub user: String,
}

/// Mathematical image of a timeline event.
pub ghost struct ShellBagTimelineV {
    pub action: ShellBagAction,
    pub time: Seq<char>,
    pub numeric_time: i64,
    pub folder: Seq<char>,
    pub user: Seq<char>,
}

impl View for ShellBagTimeline {
    type V = ShellBagTimelineV;

    open spec fn view(&self) -> ShellBagTimelineV {
        ShellBagTimelineV {
            action: self.action,
            time: self.time@,
            numeric_time: self.numeric_time,
            folder: self.folder@,
            user: self.user@,
        }
    }
}

/// The views of an event list.
pub open spec fn tl_views(s: Seq<ShellBagTimeline>) -> Seq<ShellBagTimelineV> {
    Seq::new(s.len(), |i: int| s[i]@)
}

/// The display-name fragment of one item: folder and volume items show
/// their name, file items their long name or, when that is empty, their
/// short name, network items their location, and unknown items a question
/// mark.
pub open spec fn frag_of(item: ShellItemV) -> Seq<char> {
    match item {
        ShellItemV::Folder(f) => f.name,
        ShellItemV::Volume(v) => v.name,
        ShellItemV::File(f) => if f.long_name.len() > 0 {
            f.long_name
        } else {
            f.short_name
        },
        ShellItemV::Network(n) => n.location,
        ShellItemV::Unknown(_) => seq!['?'],
    }
}

/// The display path of a tree entry: the display path of its parent — the
/// empty text when the parent is not in the tree — then a backslash, then
/// the entry's own fragment.  Paths outside the tree display as the empty
/// text.
pub open spec fn display_of(m: Map<Seq<u32>, (Option<u32>, ShellItemV)>, path: Seq<u32>) -> Seq<
    char,
>
    decreases path.len(),
{
    if !m.contains_key(path) {
        Seq::empty()
    } else {
        let parent_disp = if path.len() > 0 {
            display_of(m, path.drop_last())
        } else {
            Seq::empty()
        };
        parent_disp + seq!['\\'] + frag_of(m[path].1)
    }
}

/// Whether `assoc` is the association table of the tree list `l`: one pair
/// per entry, in the entry order, carrying the entry's display path.
pub open spec fn is_association(
    assoc: Seq<(Seq<u32>, Seq<char>)>,
    l: Seq<(ShellBagPath, (Option<u32>, ShellItem))>,
) -> bool {
    &&& assoc.len() == l.len()
    &&& forall|i: int|
        0 <= i < l.len() ==> (#[trigger] assoc[i]).0 == l[i].0@ && assoc[i].1 == display_of(
            entries_map(l),
            l[i].0@,
        )
}

/// Association is a function of the tree alone: two tables of the same
/// tree are equal, so running the pass twice yields identical path
/// strings.
pub proof fn lemma_associate_idempotent(
    a1: Seq<(Seq<u32>, Seq<char>)>,
    a2: Seq<(Seq<u32>, Seq<char>)>,
    l: Seq<(ShellBagPath, (Option<u32>, ShellItem))>,
)
    requires
        is_association(a1, l),
        is_association(a2, l),
    ensures
        a1 == a2,
{
    assert(a1 =~= a2);
}

/// A value of the map bound at a pair of a well-formed list is that pair's
/// value.
proof fn lemma_entries_map_index(s: Seq<(ShellBagPath, (Option<u32>, ShellItem))>, j: int)
    requires
        wf_entries(s),
        0 <= j < s.len(),
    ensures
        entries_map(s).contains_key(s[j].0@),
        entries_map(s)[s[j].0@] == (s[j].1.0, s[j].1.1@),
    decreases s.len(),
{
    if j == s.len() - 1 {
    } else {
        assert(wf_entries(s.drop_last()));
        assert(s.drop_last()[j] == s[j]);
        lemma_entries_map_index(s.drop_last(), j);
        assert(s.last().0@ != s[j].0@);
    }
}

/// Whether a path equals a number slice.
fn path_eq_slice(p: &ShellBagPath, s: &[u32]) -> (r: bool)
    ensures
        r == (p@ == s@),
{
    let n = p.0.len();
    if n != s.len() {
        proof {
            assert(p@ != s@);
        }
        return false;
    }
    let mut i: usize = 0;
    while i < n
        invariant
            0 <= i <= n,
            n == p@.len() == s@.len(),
            forall|j: int| 0 <= j < i ==> p@[j] == s@[j],
        decreases n - i,
    {
        if p.0[i] != *vstd::slice::slice_index_get(s, i) {
            return false;
        }
        i = i + 1;
    }
    proof {
        assert(p@ =~= s@);
    }
    true
}

/// The display-name fragment of one item.
fn frag_exec(item: &ShellItem) -> (r: String)
    ensures
        r@ == frag_of(item@),
{
    match item {
        ShellItem::Folder(f) => f.name.clone(),
        ShellItem::Volume(v) => v.name.clone(),
        ShellItem::File(f) => if f.long_name.as_str().unicode_len() > 0 {
            f.long_name.clone()
        } else {
            f.short_name.clone()
        },
        ShellItem::Network(n) => n.location.clone(),
        ShellItem::Unknown(_) => {
            let mut s = String::new();
            push_char(&mut s, '?');
            proof {
                assert(s@ =~= seq!['?']);
            }
            s
        },
    }
}

/// Computes the display path of one number slice against a tree list.
fn display_path_exec(
    list: &Vec<(ShellBagPath, (Option<u32>, ShellItem))>,
    path: &[u32],
) -> (r: String)
    requires
        wf_entries(list@),
    ensures
        r@ == display_of(entries_map(list@), path@),
    decreases path@.len(),
{
    let n = list.len();
    let mut i: usize = 0;
    let mut found: bool = false;
    let mut at: usize = 0;
    while i < n
        invariant
            0 <= i <= n,
            n == list@.len(),
            !found ==> forall|j: int| 0 <= j < i ==> list@[j].0@ != path@,
            found ==> at < n && list@[at as int].0@ == path@,
        decreases n - i,
    {
        if !found && path_eq_slice(&list[i].0, path) {
            found = true;
            at = i;
        }
        i = i + 1;
    }
    if !found {
        proof {
            crate::bags::lemma_entries_map_contains(list@, path@);
        }
        return String::new();
    }
    proof {
        lemma_entries_map_index(list@, at as int);
    }
    let plen = path.len();
    let parent_disp = if plen > 0 {
        let parent = vstd::slice::slice_subrange(path, 0, plen - 1);
        proof {
            assert(path@.subrange(0, plen - 1) =~= path@.drop_last());
        }
        display_path_exec(list, parent)
    } else {
        String::new()
    };
    let frag = frag_exec(&list[at].1.1);
    let mut out = parent_disp;
    push_char(&mut out, '\\');
    out.append(frag.as_str());
    out
}

/// Computes the display path of every tree entry, in entry order.
pub fn associate(list: &ShellBagList) -> (r: Vec<(ShellBagPath, String)>)
    requires
        wf_entries(list.list@),
    ensures
        is_association(assoc_views(r@), list.list@),
{
    let n = list.list.len();
    let mut out: Vec<(ShellBagPath, String)> = Vec::new();
    let mut i: usize = 0;
    while i < n
        invariant
            0 <= i <= n,
            n == list.list@.len(),
            wf_entries(list.list@),
            out@.len() == i,
            forall|j: int|
                0 <= j < i ==> (#[trigger] out@[j]).0@ == list.list@[j].0@ && out@[j].1@
                    == display_of(entries_map(list.list@), list.list@[j].0@),
        decreases n - i,
    {
        let path = list.list[i].0.duplicate();
        let disp = display_path_exec(&list.list, path.0.as_slice());
        out.push((path, disp));
        i = i + 1;
    }
    proof {
        assert(assoc_views(out@) =~= assoc_views(out@));
    }
    out
}

/// The views of an association table.
pub open spec fn assoc_views(s: Seq<(ShellBagPath, String)>) -> Seq<(Seq<u32>, Seq<char>)> {
    Seq::new(s.len(), |i: int| (s[i].0@, s[i].1@))
}

/// The three events of one tree entry — access, modify, create — when the
/// entry is a file; no event otherwise.  Each event carries the entry's
/// display path and the owning user.
pub open spec fn events_of_entry(
    user: Seq<char>,
    m: Map<Seq<u32>, (Option<u32>, ShellItemV)>,
    pair: (ShellBagPath, (Option<u32>, ShellItem)),
) -> Seq<ShellBagTimelineV> {
    match pair.1.1@ {
        ShellItemV::File(f) => {
            let folder = display_of(m, pair.0@);
            seq![
                ShellBagTimelineV {
                    action: ShellBagAction::Access,
                    time: time_text(f.a_time as int),
                    numeric_time: f.a_time,
                    folder,
                    user,
                },
                ShellBagTimelineV {
                    action: ShellBagAction::Modified,
                    time: time_text(f.m_time as int),
                    numeric_time: f.m_time,
                    folder,
                    user,
                },
                ShellBagTimelineV {
                    action: ShellBagAction::Created,
                    time: time_text(f.c_time as int),
                    numeric_time: f.c_time,
                    folder,
                    user,
                },
            ]
        },
        _ => Seq::empty(),
    }
}

/// The events of the entries of a tree list from the front, against the
/// fixed map `m`.
pub open spec fn events_from(
    user: Seq<char>,
    m: Map<Seq<u32>, (Option<u32>, ShellItemV)>,
    l: Seq<(ShellBagPath, (Option<u32>, ShellItem))>,
) -> Seq<ShellBagTimelineV>
    decreases l.len(),
{
    if l.len() == 0 {
        Seq::empty()
    } else {
        events_of_entry(user, m, l[0]) + events_from(user, m, l.skip(1))
    }
}

/// The events of one tree, in entry order.
pub open spec fn events_of_list(
    user: Seq<char>,
    l: Seq<(ShellBagPath, (Option<u32>, ShellItem))>,
) -> Seq<ShellBagTimelineV> {
    events_from(user, entries_map(l), l)
}

/// The events of a run of hives: for each user, the per-user shell tree
/// first, then the application-class tree.
pub open spec fn events_of_hives(hs: Seq<(String, ShellBags)>) -> Seq<ShellBagTimelineV>
    decreases hs.len(),
{
    if hs.len() == 0 {
        Seq::empty()
    } else {
        events_of_list(hs[0].0@, hs[0].1.ntuser.list@) + events_of_list(
            hs[0].0@,
            hs[0].1.usr_class.list@,
        ) + events_of_hives(hs.skip(1))
    }
}

/// The least timestamp of a nonempty event run.
pub open spec fn min_time(s: Seq<ShellBagTimelineV>) -> int
    decreases s.len(),
{
    if s.len() == 0 {
        0
    } else if s.len() == 1 {
        s[0].numeric_time as int
    } else {
        let m2 = min_time(s.skip(1));
        if s[0].numeric_time <= m2 {
            s[0].numeric_time as int
        } else {
            m2
        }
    }
}

/// The events carrying timestamp `t`, in order.
pub open spec fn part_eq(s: Seq<ShellBagTimelineV>, t: int) -> Seq<ShellBagTimelineV>
    decreases s.len(),
{
    if s.len() == 0 {
        Seq::empty()
    } else {
        (if s[0].numeric_time == t {
            seq![s[0]]
        } else {
            Seq::empty()
        }) + part_eq(s.skip(1), t)
    }
}

/// The events not carrying timestamp `t`, in order.
pub open spec fn part_ne(s: Seq<ShellBagTimelineV>, t: int) -> Seq<ShellBagTimelineV>
    decreases s.len(),
{
    if s.len() == 0 {
        Seq::empty()
    } else {
        (if s[0].numeric_time != t {
            seq![s[0]]
        } else {
            Seq::empty()
        }) + part_ne(s.skip(1), t)
    }
}

/// The least timestamp bounds every event and is attained by one.
pub proof fn lemma_min_time(s: Seq<ShellBagTimelineV>)
    requires
        s.len() > 0,
    ensures
        forall|i: int| 0 <= i < s.len() ==> min_time(s) <= #[trigger] s[i].numeric_time,
        exists|i: int| 0 <= i < s.len() && #[trigger] s[i].numeric_time == min_time(s),
    decreases s.len(),
{
    if s.len() == 1 {
        assert(s[0].numeric_time == min_time(s));
    }
    if s.len() > 1 {
        lemma_min_time(s.skip(1));
        assert forall|i: int| 0 <= i < s.len() implies min_time(s) <= #[trigger] s[i].numeric_time by {
            if i > 0 {
                assert(s.skip(1)[i - 1] == s[i]);
            }
        }
        if s[0].numeric_time <= min_time(s.skip(1)) {
            assert(s[0].numeric_time == min_time(s));
        } else {
            let i = choose|i: int|
                0 <= i < s.skip(1).len() && #[trigger] s.skip(1)[i].numeric_time == min_time(
                    s.skip(1),
                );
            assert(s[i + 1].numeric_time == min_time(s));
        }
    }
}

/// Dropping the events of an attained timestamp strictly shrinks the run.
pub proof fn lemma_part_ne_smaller(s: Seq<ShellBagTimelineV>, t: int)
    ensures
        part_ne(s, t).len() <= s.len(),
        (exists|i: int| 0 <= i < s.len() && #[trigger] s[i].numeric_time == t) ==> part_ne(
            s,
            t,
        ).len() < s.len(),
    decreases s.len(),
{
    if s.len() > 0 {
        lemma_part_ne_smaller(s.skip(1), t);
        if exists|i: int| 0 <= i < s.len() && #[trigger] s[i].numeric_time == t {
            let i = choose|i: int| 0 <= i < s.len() && #[trigger] s[i].numeric_time == t;
            if i > 0 {
                assert(s.skip(1)[i - 1].numeric_time == t);
            }
        }
    }
}

/// The events regrouped by ascending timestamp: for each timestamp in
/// ascending order, the events that carry it, kept in their original
/// relative order.
pub open spec fn stable_by_time(s: Seq<ShellBagTimelineV>) -> Seq<ShellBagTimelineV>
    decreases s.len(),
{
    if s.len() == 0 {
        Seq::empty()
    } else {
        proof {
            lemma_min_time(s);
            lemma_part_ne_smaller(s, min_time(s));
        }
        part_eq(s, min_time(s)) + stable_by_time(part_ne(s, min_time(s)))
    }
}

/// Copies one event.
fn dup_event(e: &ShellBagTimeline) -> (r: ShellBagTimeline)
    ensures
        r@ == e@,
{
    ShellBagTimeline {
        action: e.action,
        time: e.time.clone(),
        numeric_time: e.numeric_time,
        folder: e.folder.clone(),
        user: e.user.clone(),
    }
}

/// Appends the events of one tree, in entry order.
fn append_events(user: &str, list: &ShellBagList, out: &mut Vec<ShellBagTimeline>)
    requires
        wf_entries(list.list@),
    ensures
        tl_views(final(out)@) == tl_views(old(out)@) + events_of_list(user@, list.list@),
{
    let n = list.list.len();
    let mut i: usize = 0;
    let ghost l = list.list@;
    let ghost m = entries_map(list.list@);
    proof {
        assert(l.skip(0) =~= l);
        assert(tl_views(out@) + events_from(user@, m, l.skip(0)) =~= tl_views(old(out)@)
            + events_from(user@, m, l));
    }
    while i < n
        invariant
            0 <= i <= n,
            n == l.len(),
            l == list.list@,
            m == entries_map(list.list@),
            wf_entries(list.list@),
            tl_views(out@) + events_from(user@, m, l.skip(i as int)) == tl_views(old(out)@)
                + events_from(user@, m, l),
        decreases n - i,
    {
        proof {
            assert(l.skip(i as int)[0] == l[i as int]);
            assert(l.skip(i as int).skip(1) =~= l.skip(i + 1));
        }
        let ghost prev = out@;
        match &list.list[i].1.1 {
            ShellItem::File(f) => {
                let folder = display_path_exec(&list.list, list.list[i].0.0.as_slice());
                let a_time = f.a_time;
                let m_time = f.m_time;
                let c_time = f.c_time;
                out.push(
                    ShellBagTimeline {
                        action: ShellBagAction::Access,
                        time: format_timestamp(a_time),
                        numeric_time: a_time,
                        folder: folder.clone(),
                        user: user.to_owned(),
                    },
                );
                out.push(
                    ShellBagTimeline {
                        action: ShellBagAction::Modified,
                        time: format_timestamp(m_time),
                        numeric_time: m_time,
                        folder: folder.clone(),
                        user: user.to_owned(),
                    },
                );
                out.push(
                    ShellBagTimeline {
                        action: ShellBagAction::Created,
                        time: format_timestamp(c_time),
                        numeric_time: c_time,
                        folder,
                        user: user.to_owned(),
                    },
                );
                proof {
                    assert(tl_views(out@) =~= tl_views(prev) + events_of_entry(
                        user@,
                        m,
                        l[i as int],
                    ));
                    assert(tl_views(out@) + events_from(user@, m, l.skip(i + 1)) =~= tl_views(prev)
                        + events_from(user@, m, l.skip(i as int)));
                }
            },
            _ => {
                proof {
                    assert(events_of_entry(user@, m, l[i as int]) =~= Seq::<
                        ShellBagTimelineV,
                    >::empty());
                    assert(tl_views(out@) + events_from(user@, m, l.skip(i + 1)) =~= tl_views(prev)
                        + events_from(user@, m, l.skip(i as int)));
                }
            },
        }
        i = i + 1;
    }
    proof {
        assert(l.skip(n as int) =~= Seq::<(ShellBagPath, (Option<u32>, ShellItem))>::empty());
        assert(tl_views(out@) + events_from(user@, m, l.skip(n as int)) =~= tl_views(out@));
    }
}

/// Builds the event timeline of a run of hives: every file entry of every
/// tree contributes its access, modify and create events, and the whole
/// run is regrouped by ascending timestamp, events of equal timestamp kept
/// in the order their entries were visited.  No event is dropped: repeats
/// across hives stay.
#[verifier::rlimit(60)]
pub fn parse_bag_with_timeline(hives: &Vec<(String, ShellBags)>) -> (r: Vec<ShellBagTimeline>)
    requires
        forall|i: int|
            0 <= i < hives@.len() ==> wf_entries(#[trigger] hives@[i].1.ntuser.list@) && wf_entries(
                hives@[i].1.usr_class.list@,
            ),
    ensures
        tl_views(r@) == stable_by_time(events_of_hives(hives@)),
{
    let n = hives.len();
    let mut events: Vec<ShellBagTimeline> = Vec::new();
    let mut i: usize = 0;
    let ghost hs = hives@;
    proof {
        assert(hs.skip(0) =~= hs);
        assert(tl_views(events@) + events_of_hives(hs.skip(0)) =~= events_of_hives(hs));
    }
    while i < n
        invariant
            0 <= i <= n,
            n == hs.len(),
            hs == hives@,
            forall|k: int|
                0 <= k < hs.len() ==> wf_entries(#[trigger] hs[k].1.ntuser.list@) && wf_entries(
                    hs[k].1.usr_class.list@,
                ),
            tl_views(events@) + events_of_hives(hs.skip(i as int)) == events_of_hives(hs),
        decreases n - i,
    {
        proof {
            assert(hs.skip(i as int)[0] == hs[i as int]);
            assert(hs.skip(i as int).skip(1) =~= hs.skip(i + 1));
        }
        let ghost prev = tl_views(events@);
        append_events(hives[i].0.as_str(), &hives[i].1.ntuser, &mut events);
        append_events(hives[i].0.as_str(), &hives[i].1.usr_class, &mut events);
        proof {
            assert(tl_views(events@) + events_of_hives(hs.skip(i + 1)) =~= prev + events_of_hives(
                hs.skip(i as int),
            ));
        }
        i = i + 1;
    }
    proof {
        assert(hs.skip(n as int) =~= Seq::<(String, ShellBags)>::empty());
        assert(tl_views(events@) + events_of_hives(hs.skip(n as int)) =~= tl_views(events@));
    }
    order_by_time(events)
}

/// Regroups an event run by ascending timestamp, ties kept in order.
fn order_by_time(events: Vec<ShellBagTimeline>) -> (r: Vec<ShellBagTimeline>)
    ensures
        tl_views(r@) == stable_by_time(tl_views(events@)),
{
    let ghost all = tl_views(events@);
    let mut rest = events;
    let mut out: Vec<ShellBagTimeline> = Vec::new();
    proof {
        assert(tl_views(out@) + stable_by_time(tl_views(rest@)) =~= stable_by_time(all));
    }
    while rest.len() > 0
        invariant
            tl_views(out@) + stable_by_time(tl_views(rest@)) == stable_by_time(all),
        decreases rest@.len(),
    {
        let ghost cur = tl_views(rest@);
        let rn = rest.len();
        // The least timestamp, scanned from the tail so that the scan
        // mirrors the head recursion of `min_time`.
        let mut k: usize = rn - 1;
        let mut mi: i64 = rest[rn - 1].numeric_time;
        proof {
            assert(cur.skip(rn - 1) =~= seq![cur[rn - 1]]);
        }
        while k > 0
            invariant
                0 <= k < rn,
                rn == cur.len(),
                cur == tl_views(rest@),
                mi == min_time(cur.skip(k as int)),
            decreases k,
        {
            k = k - 1;
            proof {
                assert(cur.skip(k as int)[0] == cur[k as int]);
                assert(cur.skip(k as int).skip(1) =~= cur.skip(k + 1));
            }
            if rest[k].numeric_time <= mi {
                mi = rest[k].numeric_time;
            }
        }
        proof {
            assert(cur.skip(0) =~= cur);
            assert(mi == min_time(cur));
        }
        // Partition into the events at the least timestamp and the rest.
        let mut eqv: Vec<ShellBagTimeline> = Vec::new();
        let mut nev: Vec<ShellBagTimeline> = Vec::new();
        let mut j: usize = 0;
        proof {
            assert(tl_views(eqv@) + part_eq(cur.skip(0), mi as int) =~= part_eq(cur, mi as int));
            assert(tl_views(nev@) + part_ne(cur.skip(0), mi as int) =~= part_ne(cur, mi as int));
        }
        while j < rn
            invariant
                0 <= j <= rn,
                rn == cur.len(),
                cur == tl_views(rest@),
                part_eq(cur, mi as int) == tl_views(eqv@) + part_eq(cur.skip(j as int), mi as int),
                part_ne(cur, mi as int) == tl_views(nev@) + part_ne(cur.skip(j as int), mi as int),
            decreases rn - j,
        {
            proof {
                assert(cur.skip(j as int)[0] == cur[j as int]);
                assert(cur.skip(j as int).skip(1) =~= cur.skip(j + 1));
            }
            let ghost peq = tl_views(eqv@);
            let ghost pne = tl_views(nev@);
            let e = dup_event(&rest[j]);
            if e.numeric_time == mi {
                eqv.push(e);
                proof {
                    assert(tl_views(eqv@) =~= peq + seq![cur[j as int]]);
                    assert(tl_views(eqv@) + part_eq(cur.skip(j + 1), mi as int) =~= peq + part_eq(
                        cur.skip(j as int),
                        mi as int,
                    ));
                }
            } else {
                nev.push(e);
                proof {
                    assert(tl_views(nev@) =~= pne + seq![cur[j as int]]);
                    assert(tl_views(nev@) + part_ne(cur.skip(j + 1), mi as int) =~= pne + part_ne(
                        cur.skip(j as int),
                        mi as int,
                    ));
                }
            }
            j = j + 1;
        }
        proof {
            assert(cur.skip(rn as int) =~= Seq::<ShellBagTimelineV>::empty());
            assert(tl_views(eqv@) + part_eq(cur.skip(rn as int), mi as int) =~= tl_views(eqv@));
            assert(tl_views(nev@) + part_ne(cur.skip(rn as int), mi as int) =~= tl_views(nev@));
        }
        let ghost pre_out = tl_views(out@);
        out.append(&mut eqv);
        rest = nev;
        proof {
            lemma_min_time(cur);
            lemma_part_ne_smaller(cur, mi as int);
            assert(stable_by_time(cur) == part_eq(cur, mi as int) + stable_by_time(
                part_ne(cur, mi as int),
            ));
            assert(tl_views(out@) =~= pre_out + part_eq(cur, mi as int));
            assert(tl_views(out@) + stable_by_time(tl_views(rest@)) =~= pre_out + stable_by_time(
                cur,
            ));
        }
    }
    proof {
        assert(tl_views(rest@) =~= Seq::<ShellBagTimelineV>::empty());
        assert(tl_views(out@) + stable_by_time(tl_views(rest@)) =~= tl_views(out@));
    }
    out
}

} // verus!
