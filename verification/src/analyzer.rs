//! Context matching: a catalogue of file fingerprints, and the pass that
//! finds, for each target item, the first catalogue item it matches.

use vstd::prelude::*;
use crate::bags::vec_u32_eq;

verus! {

/// A catalogue of file fingerprints.
#[derive(Debug, Clone)]
pub struct AnalyzerContext {
    pub items: Vec<ItemContext>,
}

/// One file fingerprint: its name, path, size and checksum runs.
#[derive(Debug, Clone)]
pub struct ItemContext {
    pub name: String,
    pub path: String,
    pub size: u64,
    pub crc32: Vec<u32>,
    pub tls: u32,
}

/// Mathematical image of a fingerprint.
pub ghost struct ItemContextV {
    pub name: Seq<char>,
    pub path: Seq<char>,
    pub size: u64,
    pub crc32: Seq<u32>,
    pub tls: u32,
}

impl View for ItemContext {
    type V = ItemContextV;

    open spec fn view(&self) -> ItemContextV {
        ItemContextV {
            name: self.name@,
            path: self.path@,
            size: self.size,
            crc32: self.crc32@,
            tls: self.tls,
        }
    }
}

/// The views of a fingerprint list.
pub open spec fn item_views(s: Seq<ItemContext>) -> Seq<ItemContextV> {
    Seq::new(s.len(), |i: int| s[i]@)
}

/// One found match: the catalogue item and the path it was found at.
#[derive(Debug, Clone)]
pub struct Match {
    pub items: Vec<ItemContext>,
    pub path: String,
}

/// An empty payload.
#[derive(Debug, Clone)]
pub struct Empty {}

/// A task-scoped message payload.
#[derive(Debug, Clone)]
pub struct Payload<T> {
    pub task_id: u64,
    pub _type: String,
    pub data: T,
}

/// The analyzer and its catalogue.
#[derive(Debug)]
pub struct Analyzer {
    pub context: AnalyzerContext,
}

impl Analyzer {
    /// Holds the catalogue.
    pub fn new(context: AnalyzerContext) -> (r: Analyzer)
        ensures
            r.context.items@ == context.items@,
    {
        Analyzer { context }
    }
}

/// Whether a catalogue item matches a target item: the catalogue size may
/// fall short of the target size by at most one, and the checksum runs
/// must agree.
pub open spec fn item_matches(c: ItemContext, t: ItemContext) -> bool {
    c.size + 1 >= t.size && c.crc32@ == t.crc32@
}

/// The first catalogue index matching the target, if any.
pub open spec fn first_ctx_match(ctx: Seq<ItemContext>, t: ItemContext, i: int) -> Option<int>
    decreases ctx.len() - i,
{
    if i < 0 || i >= ctx.len() {
        None
    } else if item_matches(ctx[i], t) {
        Some(i)
    } else {
        first_ctx_match(ctx, t, i + 1)
    }
}

/// Mathematical image of a match list: for each target item with a
/// catalogue match, the matched item's path run and the target's path.
pub open spec fn matches_spec(titems: Seq<ItemContext>, ctx: Seq<ItemContext>) -> Seq<
    (Seq<ItemContextV>, Seq<char>),
>
    decreases titems.len(),
{
    if titems.len() == 0 {
        Seq::empty()
    } else {
        (match first_ctx_match(ctx, titems[0], 0) {
            Some(j) => seq![(seq![ctx[j]@], titems[0].path@)],
            None => Seq::empty(),
        }) + matches_spec(titems.skip(1), ctx)
    }
}

/// The views of a match list.
pub open spec fn match_views(s: Seq<Match>) -> Seq<(Seq<ItemContextV>, Seq<char>)> {
    Seq::new(s.len(), |i: int| (item_views(s[i].items@), s[i].path@))
}

/// Decides whether a catalogue item matches a target item.
fn item_matches_exec(c: &ItemContext, t: &ItemContext) -> (r: bool)
    ensures
        r == item_matches(*c, *t),
{
    let size_ok = if c.size == u64::MAX {
        true
    } else {
        c.size + 1 >= t.size
    };
    size_ok && vec_u32_eq(&c.crc32, &t.crc32)
}

/// Copies one fingerprint.
fn dup_item(c: &ItemContext) -> (r: ItemContext)
    ensures
        r@ == c@,
{
    ItemContext {
        name: c.name.clone(),
        path: c.path.clone(),
        size: c.size,
        crc32: dup_u32s(&c.crc32),
        tls: c.tls,
    }
}

/// Copies a number list.
fn dup_u32s(v: &Vec<u32>) -> (r: Vec<u32>)
    ensures
        r@ == v@,
{
    let n = v.len();
    let mut out: Vec<u32> = Vec::new();
    let mut i: usize = 0;
    while i < n
        invariant
            0 <= i <= n,
            n == v@.len(),
            out@ == v@.take(i as int),
        decreases n - i,
    {
        out.push(v[i]);
        proof {
            assert(v@.take(i + 1) =~= v@.take(i as int).push(v@[i as int]));
        }
        i = i + 1;
    }
    proof {
        assert(v@.take(n as int) =~= v@);
    }
    out
}

/// For each target item, the first catalogue item it matches, with the
/// target's path; target items without a match are dropped.
pub fn matches_on_context(target: AnalyzerContext, context: AnalyzerContext) -> (r: Vec<Match>)
    ensures
        match_views(r@) == matches_spec(target.items@, context.items@),
{
    let titems = &target.items;
    let ctx = &context.items;
    let n = titems.len();
    let cn = ctx.len();
    let mut out: Vec<Match> = Vec::new();
    let mut i: usize = 0;
    let ghost tv = titems@;
    let ghost cv = ctx@;
    proof {
        assert(tv.skip(0) =~= tv);
        assert(match_views(out@) + matches_spec(tv.skip(0), cv) =~= matches_spec(tv, cv));
    }
    while i < n
        invariant
            0 <= i <= n,
            n == tv.len(),
            cn == cv.len(),
            tv == titems@,
            cv == ctx@,
            matches_spec(tv, cv) == match_views(out@) + matches_spec(tv.skip(i as int), cv),
        decreases n - i,
    {
        proof {
            assert(tv.skip(i as int)[0] == tv[i as int]);
            assert(tv.skip(i as int).skip(1) =~= tv.skip(i + 1));
        }
        let ghost prev = match_views(out@);
        let mut j: usize = 0;
        let mut found: bool = false;
        let mut at: usize = 0;
        while j < cn
            invariant
                0 <= j <= cn,
                cn == cv.len(),
                tv == titems@,
                cv == ctx@,
                i < tv.len(),
                !found ==> first_ctx_match(cv, tv[i as int], 0) == first_ctx_match(
                    cv,
                    tv[i as int],
                    j as int,
                ),
                found ==> at < cn && first_ctx_match(cv, tv[i as int], 0) == Some(at as int),
                found ==> j == cn,
            decreases cn - j,
        {
            if item_matches_exec(&ctx[j], &titems[i]) {
                found = true;
                at = j;
                j = cn;
            } else {
                j = j + 1;
            }
        }
        if found {
            let item = dup_item(&ctx[at]);
            let mut items: Vec<ItemContext> = Vec::new();
            items.push(item);
            let m = Match { items, path: titems[i].path.clone() };
            out.push(m);
            proof {
                assert(item_views(out@.last().items@) =~= seq![cv[at as int]@]);
                assert(match_views(out@) =~= prev + seq![(seq![cv[at as int]@], tv[i as int].path@)]);
                assert(match_views(out@) + matches_spec(tv.skip(i + 1), cv) =~= prev
                    + matches_spec(tv.skip(i as int), cv));
            }
        } else {
            proof {
                assert(match_views(out@) + matches_spec(tv.skip(i + 1), cv) =~= prev
                    + matches_spec(tv.skip(i as int), cv));
            }
        }
        i = i + 1;
    }
    proof {
        assert(tv.skip(n as int) =~= Seq::<ItemContext>::empty());
        assert(match_views(out@) + matches_spec(tv.skip(n as int), cv) =~= match_views(out@));
    }
    out
}

} // verus!
