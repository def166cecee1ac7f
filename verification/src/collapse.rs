//! The collapsed "interacted folders" view: paths assembled from the raw
//! MRU entries, pared down to the most specific ones — a path subsumed by
//! a longer path below it is dropped.

use vstd::prelude::*;
use crate::item::le16;
use crate::strutil::utf8_lossy_of;
use crate::strutil::utf8_lossy;
use crate::strutil::replace_spec;
use crate::strutil::replace_first_spec;
use crate::strutil::replace_all;
use crate::strutil::replace_first;
use crate::strutil::has_prefix;
use crate::strutil::starts_with_exec;
use vstd::string::StringSliceAdditionalSpecFns;

verus! {

/// One collapsed folder path.
#[derive(Debug, Clone)]
pub struct ShellBagDat {
    pub path: String,
}

/// One raw MRU entry with its decoded names and its child entries.
#[derive(Debug)]
pub struct BagMRU {
    pub path: String,
    pub entry: Vec<u8>,
    pub sub: Vec<BagMRU>,
    pub full_name: Option<String>,
    pub short_name: Option<String>,
}

/// The view of an optional text field.
pub open spec fn opt_text(o: Option<String>) -> Option<Seq<char>> {
    match o {
        Some(s) => Some(s@),
        None => None,
    }
}

/// The short name a raw entry yields, when its type byte names a volume or
/// a file record large enough to carry one; `None` leaves the field as it
/// was.
pub open spec fn short_name_update(entry: Seq<u8>) -> Option<Seq<char>> {
    if entry.len() < 3 {
        None
    } else {
        let entry_size = le16(entry, 0) as int;
        let t = entry[2];
        if t == 0x2f {
            if entry.len() >= 6 {
                Some(utf8_lossy_of(entry.subrange(3, 6)))
            } else {
                None
            }
        } else if t == 0x31 {
            if entry.len() >= entry_size && entry_size >= 2 {
                let ext_offset = le16(entry, entry_size - 2) as int;
                if ext_offset > 14 && ext_offset <= entry.len() {
                    Some(
                        replace_spec(
                            utf8_lossy_of(entry.subrange(14, ext_offset)),
                            seq!['\0'],
                            Seq::empty(),
                        ),
                    )
                } else {
                    None
                }
            } else {
                None
            }
        } else {
            None
        }
    }
}

/// Decodes the display name held in a raw entry: a volume label from its
/// three label bytes, or a file short name from the slice before the
/// extension offset with null characters removed.  Entries of other
/// shapes, or too small, leave the name untouched.
pub fn decode_bag_mru_entry_name(bag_mru: &mut BagMRU)
    ensures
        final(bag_mru).path == old(bag_mru).path,
        final(bag_mru).entry == old(bag_mru).entry,
        final(bag_mru).sub == old(bag_mru).sub,
        final(bag_mru).full_name == old(bag_mru).full_name,
        opt_text(final(bag_mru).short_name) == (match short_name_update(old(bag_mru).entry@) {
            Some(s) => Some(s),
            None => opt_text(old(bag_mru).short_name),
        }),
{
    let elen = bag_mru.entry.len();
    if elen < 3 {
        return ;
    }
    let entry_size = ((bag_mru.entry[0] as u16) | ((bag_mru.entry[1] as u16) << 8)) as usize;
    let t = bag_mru.entry[2];
    if t == 0x2f {
        if elen >= 6 {
            let sub = vstd::slice::slice_subrange(bag_mru.entry.as_slice(), 3, 6);
            bag_mru.short_name = Some(utf8_lossy(sub));
        }
        return ;
    }
    if t == 0x31 {
        if elen >= entry_size && entry_size >= 2 {
            let lo = bag_mru.entry[entry_size - 2] as u16;
            let hi = (bag_mru.entry[entry_size - 1] as u16) << 8;
            let ext_offset = (lo | hi) as usize;
            proof {
                assert(le16(bag_mru.entry@, entry_size - 2) == (bag_mru.entry@[entry_size
                    - 2] as u16) | ((bag_mru.entry@[entry_size - 1] as u16) << 8));
            }
            if ext_offset > 14 && ext_offset <= elen {
                let sub = vstd::slice::slice_subrange(bag_mru.entry.as_slice(), 14, ext_offset);
                let raw_name = utf8_lossy(sub);
                proof {
                    reveal_strlit("\0");
                    reveal_strlit("");
                    assert("\0"@ =~= seq!['\0']);
                    assert(""@ =~= Seq::<char>::empty());
                }
                let cleaned = replace_all(raw_name.as_str(), "\0", "");
                bag_mru.short_name = Some(cleaned);
            }
        }
        return ;
    }
}

/// The collapsed path a raw entry yields: its assembled full name with the
/// first doubled separator removed and each doubled separator after a
/// drive colon reduced to one.
pub open spec fn dat_spec(b: BagMRU) -> Option<Seq<char>> {
    match b.full_name {
        Some(p) => Some(
            replace_spec(
                replace_first_spec(p@, seq!['\\', '\\'], Seq::empty()),
                seq![':', '\\', '\\'],
                seq![':', '\\'],
            ),
        ),
        None => None,
    }
}

/// Normalizes one raw entry's assembled path into a folder path.
pub fn bag_mru_to_shell_bag(bag_mru: &BagMRU) -> (r: Option<ShellBagDat>)
    ensures
        opt_dat(r) == dat_spec(*bag_mru),
{
    match &bag_mru.full_name {
        Some(p) => {
            proof {
                reveal_strlit("\\\\");
                reveal_strlit("");
                reveal_strlit(":\\\\");
                reveal_strlit(":\\");
                assert("\\\\"@ =~= seq!['\\', '\\']);
                assert(""@ =~= Seq::<char>::empty());
                assert(":\\\\"@ =~= seq![':', '\\', '\\']);
                assert(":\\"@ =~= seq![':', '\\']);
            }
            let once = replace_first(p.as_str(), "\\\\", "");
            let path = replace_all(once.as_str(), ":\\\\", ":\\");
            Some(ShellBagDat { path })
        },
        None => None,
    }
}

/// The view of an optional folder path.
pub open spec fn opt_dat(r: Option<ShellBagDat>) -> Option<Seq<char>> {
    match r {
        Some(d) => Some(d.path@),
        None => None,
    }
}

/// The paths of a folder list.
pub open spec fn dat_paths(s: Seq<ShellBagDat>) -> Seq<Seq<char>> {
    Seq::new(s.len(), |i: int| s[i].path@)
}

/// The collapsed paths below one raw entry, children first to deepest, an
/// entry without an assembled name contributing neither itself nor its
/// children.
pub open spec fn collect_sub_spec(b: BagMRU) -> Seq<Seq<char>>
    decreases b,
{
    subs_spec(b.sub@)
}

pub open spec fn subs_spec(s: Seq<BagMRU>) -> Seq<Seq<char>>
    decreases s,
{
    if s.len() == 0 {
        Seq::empty()
    } else {
        proof {
            assert(s[0] == s.index(0));
        }
        let head = match dat_spec(s[0]) {
            Some(p) => seq![p] + collect_sub_spec(s[0]),
            None => Seq::empty(),
        };
        head + subs_spec(s.skip(1))
    }
}

/// Collects the collapsed paths below one raw entry.
pub fn collect_sub_shell_bag(bag_mru: &BagMRU) -> (r: Vec<ShellBagDat>)
    ensures
        dat_paths(r@) == collect_sub_spec(*bag_mru),
    decreases *bag_mru,
{
    let mut out: Vec<ShellBagDat> = Vec::new();
    let n = bag_mru.sub.len();
    let mut i: usize = 0;
    proof {
        assert(bag_mru.sub@.skip(0) =~= bag_mru.sub@);
        assert(dat_paths(out@) + subs_spec(bag_mru.sub@.skip(0)) =~= subs_spec(bag_mru.sub@));
    }
    while i < n
        invariant
            0 <= i <= n,
            n == bag_mru.sub@.len(),
            subs_spec(bag_mru.sub@) == dat_paths(out@) + subs_spec(bag_mru.sub@.skip(i as int)),
        decreases n - i,
    {
        proof {
            assert(bag_mru.sub@.skip(i as int)[0] == bag_mru.sub@[i as int]);
            assert(bag_mru.sub@.skip(i as int).skip(1) =~= bag_mru.sub@.skip(i + 1));
        }
        let ghost prev = out@;
        let child = &bag_mru.sub[i];
        match bag_mru_to_shell_bag(child) {
            Some(dat) => {
                out.push(dat);
                proof {
                    vstd::seq::axiom_seq_index_decreases(bag_mru.sub@, i as int);
                    broadcast use vstd::std_specs::vec::axiom_vec_decreases_to_view;

                    assert(decreases_to!(*bag_mru => *child));
                }
                let mut deeper = collect_sub_shell_bag(child);
                let ghost deeperv = deeper@;
                out.append(&mut deeper);
                proof {
                    assert(dat_paths(out@) =~= dat_paths(prev) + (seq![
                        dat_spec(bag_mru.sub@[i as int])->0,
                    ] + dat_paths(deeperv)));
                    assert(dat_paths(out@) + subs_spec(bag_mru.sub@.skip(i + 1)) =~= dat_paths(
                        prev,
                    ) + subs_spec(bag_mru.sub@.skip(i as int)));
                }
            },
            None => {
                proof {
                    assert(dat_paths(out@) + subs_spec(bag_mru.sub@.skip(i + 1)) =~= dat_paths(
                        prev,
                    ) + subs_spec(bag_mru.sub@.skip(i as int)));
                }
            },
        }
        i = i + 1;
    }
    proof {
        assert(bag_mru.sub@.skip(n as int) =~= Seq::<BagMRU>::empty());
        assert(dat_paths(out@) + subs_spec(bag_mru.sub@.skip(n as int)) =~= dat_paths(out@));
    }
    out
}

/// Whether `q` subsumes `p`: `q` begins with `p` followed by a separator —
/// or with `p` itself when `p` already ends in one — and is strictly
/// longer.
pub open spec fn subsumed(p: Seq<char>, q: Seq<char>) -> bool {
    let pre = if p.len() > 0 && p.last() == '\\' {
        p
    } else {
        p + seq!['\\']
    };
    q.len() > p.len() && has_prefix(q, pre)
}

/// Whether no path of the set subsumes `p`.
pub open spec fn retained(all: Seq<Seq<char>>, p: Seq<char>) -> bool {
    forall|j: int| 0 <= j < all.len() ==> !subsumed(p, #[trigger] all[j])
}

/// The paths of `s` that no path of `all` subsumes, in order.
pub open spec fn sift(all: Seq<Seq<char>>, s: Seq<Seq<char>>) -> Seq<Seq<char>>
    decreases s.len(),
{
    if s.len() == 0 {
        Seq::empty()
    } else {
        (if retained(all, s[0]) {
            seq![s[0]]
        } else {
            Seq::empty()
        }) + sift(all, s.skip(1))
    }
}

/// Whether `q` subsumes `p`, decided on string slices.
fn subsumed_exec(p: &str, q: &str) -> (r: bool)
    ensures
        r == subsumed(p@, q@),
{
    let plen = p.unicode_len();
    let qlen = q.unicode_len();
    if qlen <= plen {
        return false;
    }
    if plen > 0 && p.get_char(plen - 1) == '\\' {
        starts_with_exec(q, p)
    } else {
        let mut pre = String::new();
        pre.append(p);
        crate::strutil::push_char(&mut pre, '\\');
        proof {
            assert(pre@ =~= p@ + seq!['\\']);
        }
        starts_with_exec(q, pre.as_str())
    }
}

/// Whether no path of `all` subsumes `p`.
fn retained_exec(all: &Vec<ShellBagDat>, p: &str) -> (r: bool)
    ensures
        r == retained(dat_paths(all@), p@),
{
    let n = all.len();
    let mut j: usize = 0;
    while j < n
        invariant
            0 <= j <= n,
            n == all@.len(),
            forall|k: int| 0 <= k < j ==> !subsumed(p@, #[trigger] dat_paths(all@)[k]),
        decreases n - j,
    {
        if subsumed_exec(p, all[j].path.as_str()) {
            proof {
                assert(subsumed(p@, dat_paths(all@)[j as int]));
            }
            return false;
        }
        j = j + 1;
    }
    true
}

/// Keeps the most specific paths: every path that a longer path with a
/// separator continues is dropped, the rest stay in order.
pub fn collapse(paths: Vec<ShellBagDat>) -> (r: Vec<ShellBagDat>)
    ensures
        dat_paths(r@) == sift(dat_paths(paths@), dat_paths(paths@)),
{
    let ghost all = dat_paths(paths@);
    let n = paths.len();
    let mut out: Vec<ShellBagDat> = Vec::new();
    let mut i: usize = 0;
    proof {
        assert(all.skip(0) =~= all);
        assert(dat_paths(out@) + sift(all, all.skip(0)) =~= sift(all, all));
    }
    while i < n
        invariant
            0 <= i <= n,
            n == paths@.len(),
            all == dat_paths(paths@),
            sift(all, all) == dat_paths(out@) + sift(all, all.skip(i as int)),
        decreases n - i,
    {
        proof {
            assert(all.skip(i as int)[0] == all[i as int]);
            assert(all.skip(i as int).skip(1) =~= all.skip(i + 1));
        }
        let ghost prev = out@;
        if retained_exec(&paths, paths[i].path.as_str()) {
            let dat = ShellBagDat { path: paths[i].path.clone() };
            out.push(dat);
            proof {
                assert(dat_paths(out@) =~= dat_paths(prev) + seq![all[i as int]]);
                assert(dat_paths(out@) + sift(all, all.skip(i + 1)) =~= dat_paths(prev) + sift(
                    all,
                    all.skip(i as int),
                ));
            }
        } else {
            proof {
                assert(dat_paths(out@) + sift(all, all.skip(i + 1)) =~= dat_paths(prev) + sift(
                    all,
                    all.skip(i as int),
                ));
            }
        }
        i = i + 1;
    }
    proof {
        assert(all.skip(n as int) =~= Seq::<Seq<char>>::empty());
        assert(dat_paths(out@) + sift(all, all.skip(n as int)) =~= dat_paths(out@));
    }
    out
}

/// The paths of `s` whose encodings are longer than three bytes, in order.
pub open spec fn long_only(s: Seq<Seq<char>>) -> Seq<Seq<char>>
    decreases s.len(),
{
    if s.len() == 0 {
        Seq::empty()
    } else {
        (if vstd::utf8::encode_utf8(s[0]).len() > 3 {
            seq![s[0]]
        } else {
            Seq::empty()
        }) + long_only(s.skip(1))
    }
}

/// The collapsed folder view of a forest of raw MRU entries: every entry
/// with an assembled name contributes its normalized path and those of its
/// children; paths of at most three bytes are dropped; then only the most
/// specific paths stay.
pub fn collect_shell_bag(roots: &Vec<BagMRU>) -> (r: Vec<ShellBagDat>)
    ensures
        ({
            let items = long_only(subs_spec(roots@));
            dat_paths(r@) == sift(items, items)
        }),
{
    let n = roots.len();
    let mut items: Vec<ShellBagDat> = Vec::new();
    let mut i: usize = 0;
    proof {
        assert(roots@.skip(0) =~= roots@);
        assert(dat_paths(items@) + subs_spec(roots@.skip(0)) =~= subs_spec(roots@));
    }
    while i < n
        invariant
            0 <= i <= n,
            n == roots@.len(),
            subs_spec(roots@) == dat_paths(items@) + subs_spec(roots@.skip(i as int)),
        decreases n - i,
    {
        proof {
            assert(roots@.skip(i as int)[0] == roots@[i as int]);
            assert(roots@.skip(i as int).skip(1) =~= roots@.skip(i + 1));
        }
        let ghost prev = items@;
        let root = &roots[i];
        match bag_mru_to_shell_bag(root) {
            Some(dat) => {
                items.push(dat);
                let mut deeper = collect_sub_shell_bag(root);
                let ghost deeperv = deeper@;
                items.append(&mut deeper);
                proof {
                    assert(dat_paths(items@) =~= dat_paths(prev) + (seq![
                        dat_spec(roots@[i as int])->0,
                    ] + dat_paths(deeperv)));
                    assert(dat_paths(items@) + subs_spec(roots@.skip(i + 1)) =~= dat_paths(prev)
                        + subs_spec(roots@.skip(i as int)));
                }
            },
            None => {
                proof {
                    assert(dat_paths(items@) + subs_spec(roots@.skip(i + 1)) =~= dat_paths(prev)
                        + subs_spec(roots@.skip(i as int)));
                }
            },
        }
        i = i + 1;
    }
    proof {
        assert(roots@.skip(n as int) =~= Seq::<BagMRU>::empty());
        assert(dat_paths(items@) + subs_spec(roots@.skip(n as int)) =~= dat_paths(items@));
    }
    // Drop the short paths, then keep only the most specific ones.
    let ghost allv = dat_paths(items@);
    let m = items.len();
    let mut longs: Vec<ShellBagDat> = Vec::new();
    let mut j: usize = 0;
    proof {
        assert(allv.skip(0) =~= allv);
        assert(dat_paths(longs@) + long_only(allv.skip(0)) =~= long_only(allv));
    }
    while j < m
        invariant
            0 <= j <= m,
            m == items@.len(),
            allv == dat_paths(items@),
            long_only(allv) == dat_paths(longs@) + long_only(allv.skip(j as int)),
        decreases m - j,
    {
        proof {
            assert(allv.skip(j as int)[0] == allv[j as int]);
            assert(allv.skip(j as int).skip(1) =~= allv.skip(j + 1));
        }
        let ghost prev = longs@;
        let pstr = items[j].path.as_str();
        let blen = pstr.as_bytes().len();
        proof {
            assert(pstr.spec_bytes() == vstd::utf8::encode_utf8(allv[j as int]));
        }
        if blen > 3 {
            let dat = ShellBagDat { path: items[j].path.clone() };
            longs.push(dat);
            proof {
                assert(dat_paths(longs@) =~= dat_paths(prev) + seq![allv[j as int]]);
                assert(dat_paths(longs@) + long_only(allv.skip(j + 1)) =~= dat_paths(prev)
                    + long_only(allv.skip(j as int)));
            }
        } else {
            proof {
                assert(dat_paths(longs@) + long_only(allv.skip(j + 1)) =~= dat_paths(prev)
                    + long_only(allv.skip(j as int)));
            }
        }
        j = j + 1;
    }
    proof {
        assert(allv.skip(m as int) =~= Seq::<Seq<char>>::empty());
        assert(dat_paths(longs@) + long_only(allv.skip(m as int)) =~= dat_paths(longs@));
    }
    collapse(longs)
}

/// Every element the sift keeps comes from the input and is retained by
/// the whole set; conversely every retained input element is kept.
proof fn lemma_sift_membership(all: Seq<Seq<char>>, s: Seq<Seq<char>>, p: Seq<char>)
    ensures
        sift(all, s).contains(p) <==> s.contains(p) && retained(all, p),
    decreases s.len(),
{
    if s.len() > 0 {
        lemma_sift_membership(all, s.skip(1), p);
        let head = if retained(all, s[0]) {
            seq![s[0]]
        } else {
            Seq::<Seq<char>>::empty()
        };
        assert(sift(all, s) == head + sift(all, s.skip(1)));
        if sift(all, s).contains(p) {
            let i = choose|i: int| 0 <= i < sift(all, s).len() && sift(all, s)[i] == p;
            if i < head.len() {
                assert(p == s[0] && retained(all, p));
                assert(s.contains(p));
            } else {
                assert(sift(all, s.skip(1))[i - head.len()] == p);
                assert(sift(all, s.skip(1)).contains(p));
                let k = choose|k: int| 0 <= k < s.skip(1).len() && s.skip(1)[k] == p;
                assert(s[k + 1] == p);
            }
        }
        if s.contains(p) && retained(all, p) {
            let i = choose|i: int| 0 <= i < s.len() && s[i] == p;
            if i == 0 {
                assert(head[0] == p);
                assert(sift(all, s)[0] == p);
            } else {
                assert(s.skip(1)[i - 1] == p);
                assert(s.skip(1).contains(p));
                let k = choose|k: int|
                    0 <= k < sift(all, s.skip(1)).len() && sift(all, s.skip(1))[k] == p;
                assert(sift(all, s)[head.len() + k] == p);
            }
        }
    }
}

/// Retention against a set depends only on which paths the set holds.
proof fn lemma_retained_same_elements(a1: Seq<Seq<char>>, a2: Seq<Seq<char>>, p: Seq<char>)
    requires
        forall|q: Seq<char>| a1.contains(q) <==> a2.contains(q),
        retained(a1, p),
    ensures
        retained(a2, p),
{
    assert forall|j: int| 0 <= j < a2.len() implies !subsumed(p, #[trigger] a2[j]) by {
        assert(a2.contains(a2[j]));
        assert(a1.contains(a2[j]));
        let k = choose|k: int| 0 <= k < a1.len() && a1[k] == a2[j];
        assert(!subsumed(p, a1[k]));
    }
}

/// The collapse of a path set depends only on which paths it holds: any
/// reordering or duplication of the input yields the same output set.
pub proof fn lemma_collapse_order_independent(a1: Seq<Seq<char>>, a2: Seq<Seq<char>>)
    requires
        forall|q: Seq<char>| a1.contains(q) <==> a2.contains(q),
    ensures
        forall|p: Seq<char>| sift(a1, a1).contains(p) <==> sift(a2, a2).contains(p),
{
    assert forall|p: Seq<char>| sift(a1, a1).contains(p) <==> sift(a2, a2).contains(p) by {
        lemma_sift_membership(a1, a1, p);
        lemma_sift_membership(a2, a2, p);
        if a1.contains(p) && retained(a1, p) {
            lemma_retained_same_elements(a1, a2, p);
        }
        if a2.contains(p) && retained(a2, p) {
            lemma_retained_same_elements(a2, a1, p);
        }
    }
}

/// A run whose every element the set retains sifts to itself.
proof fn lemma_sift_all_retained(all: Seq<Seq<char>>, s: Seq<Seq<char>>)
    requires
        forall|i: int| 0 <= i < s.len() ==> retained(all, #[trigger] s[i]),
    ensures
        sift(all, s) == s,
    decreases s.len(),
{
    if s.len() > 0 {
        assert forall|i: int| 0 <= i < s.skip(1).len() implies retained(
            all,
            #[trigger] s.skip(1)[i],
        ) by {
            assert(s.skip(1)[i] == s[i + 1]);
        }
        lemma_sift_all_retained(all, s.skip(1));
        assert(sift(all, s) =~= s);
    }
}

/// Collapsing is idempotent: collapsing an already collapsed set changes
/// nothing, and no element of the output is continued, separator and all,
/// by another element of the output.
pub proof fn lemma_collapse_idempotent(a: Seq<Seq<char>>)
    ensures
        sift(sift(a, a), sift(a, a)) == sift(a, a),
        forall|i: int, j: int|
            0 <= i < sift(a, a).len() && 0 <= j < sift(a, a).len() ==> !subsumed(
                #[trigger] sift(a, a)[i],
                #[trigger] sift(a, a)[j],
            ),
{
    let out = sift(a, a);
    assert forall|i: int, j: int|
        0 <= i < out.len() && 0 <= j < out.len() implies !subsumed(
        #[trigger] out[i],
        #[trigger] out[j],
    ) by {
        assert(out.contains(out[i]));
        assert(out.contains(out[j]));
        lemma_sift_membership(a, a, out[i]);
        lemma_sift_membership(a, a, out[j]);
        let k = choose|k: int| 0 <= k < a.len() && a[k] == out[j];
        assert(!subsumed(out[i], a[k]));
    }
    assert forall|i: int| 0 <= i < out.len() implies retained(out, #[trigger] out[i]) by {}
    lemma_sift_all_retained(out, out);
}

} // verus!
