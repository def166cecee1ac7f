//! Paths of the MRU chain: each level contributes the numeric name of one
//! key, and the empty sequence is the root.

use vstd::prelude::*;
use crate::strutil::dec_str;
use crate::strutil::u64_to_string;
use crate::strutil::push_char;

verus! {

/// An ordered sequence of key numbers, one per level of the chain.
#[derive(Debug)]
pub struct ShellBagPath(pub Vec<u32>);

impl View for ShellBagPath {
    type V = Seq<u32>;

    open spec fn view(&self) -> Seq<u32> {
        self.0@
    }
}

/// An integer naming a view-state bucket.
#[derive(Debug, Clone, Copy, PartialEq, Eq, Structural)]
pub struct NodeSlot(pub u32);

/// The textual form of a path: each element rendered in decimal after a
/// slash.
pub open spec fn path_str(s: Seq<u32>) -> Seq<char>
    decreases s.len(),
{
    if s.len() == 0 {
        Seq::empty()
    } else {
        path_str(s.drop_last()) + seq!['/'] + dec_str(s.last() as int)
    }
}

/// Whether `a` comes lexicographically before `b`.
pub open spec fn path_lt(a: Seq<u32>, b: Seq<u32>) -> bool
    decreases a.len(),
{
    if b.len() == 0 {
        false
    } else if a.len() == 0 {
        true
    } else if a[0] != b[0] {
        a[0] < b[0]
    } else {
        path_lt(a.skip(1), b.skip(1))
    }
}

/// Removing the last element of a nonempty path yields a strictly smaller
/// path under the lexicographic order, so a parent always precedes its
/// children.
pub proof fn lemma_parent_precedes(p: Seq<u32>)
    requires
        p.len() > 0,
    ensures
        path_lt(p.drop_last(), p),
    decreases p.len(),
{
    if p.drop_last().len() > 0 {
        assert(p.drop_last().skip(1) =~= p.skip(1).drop_last());
        lemma_parent_precedes(p.skip(1));
    }
}

impl ShellBagPath {
    /// Renders the path, one slash-prefixed decimal element per level.
    pub fn as_str(&self) -> (r: String)
        ensures
            r@ == path_str(self@),
    {
        let n = self.0.len();
        let mut out = String::new();
        let mut i: usize = 0;
        proof {
            assert(self@.take(0) =~= Seq::<u32>::empty());
        }
        while i < n
            invariant
                0 <= i <= n,
                n == self@.len(),
                out@ == path_str(self@.take(i as int)),
            decreases n - i,
        {
            push_char(&mut out, '/');
            let digits = u64_to_string(self.0[i] as u64);
            out.append(digits.as_str());
            proof {
                assert(self@.take(i + 1).drop_last() =~= self@.take(i as int));
                assert(self@.take(i + 1).last() == self@[i as int]);
            }
            i = i + 1;
        }
        proof {
            assert(self@.take(n as int) =~= self@);
        }
        out
    }

    /// Copies the path.
    pub fn duplicate(&self) -> (r: ShellBagPath)
        ensures
            r@ == self@,
    {
        let mut v: Vec<u32> = Vec::new();
        let n = self.0.len();
        let mut i: usize = 0;
        while i < n
            invariant
                0 <= i <= n,
                n == self@.len(),
                v@ == self@.take(i as int),
            decreases n - i,
        {
            v.push(self.0[i]);
            proof {
                assert(self@.take(i + 1) =~= self@.take(i as int).push(self@[i as int]));
            }
            i = i + 1;
        }
        proof {
            assert(self@.take(n as int) =~= self@);
        }
        ShellBagPath(v)
    }

    /// Extends the path downward by one key number.
    pub fn child(&self, e: u32) -> (r: ShellBagPath)
        ensures
            r@ == self@.push(e),
    {
        let mut v = self.duplicate();
        v.0.push(e);
        v
    }

    /// Whether two paths are the same.
    pub fn same_as(&self, other: &ShellBagPath) -> (r: bool)
        ensures
            r == (self@ == other@),
    {
        let n = self.0.len();
        if n != other.0.len() {
            proof {
                assert(self@ != other@);
            }
            return false;
        }
        let mut i: usize = 0;
        while i < n
            invariant
                0 <= i <= n,
                n == self@.len() == other@.len(),
                forall|j: int| 0 <= j < i ==> self@[j] == other@[j],
            decreases n - i,
        {
            if self.0[i] != other.0[i] {
                return false;
            }
            i = i + 1;
        }
        proof {
            assert(self@ =~= other@);
        }
        true
    }
}

} // verus!
