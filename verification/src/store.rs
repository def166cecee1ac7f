//! A read-only snapshot of the part of the key-value store that the engine
//! walks: each node carries its subkeys in the store's own enumeration order
//! and its named values.  The caller records what it could read; a key it
//! could not open is simply absent, and a node whose values it could not
//! read carries none.

use vstd::prelude::*;

verus! {

/// One value stored under a node.
#[derive(Debug)]
pub enum RegValue {
    Bin(Vec<u8>),
    Num(u32),
    Text(String),
}

/// One node of the store snapshot.
#[derive(Debug)]
pub struct RegNode {
    /// Subkeys, named, in the store's enumeration order.
    pub keys: Vec<(String, RegNode)>,
    /// Named values.
    pub values: Vec<(String, RegValue)>,
}

/// Errors of the store boundary.  A snapshot can only witness absence: a
/// key or value that could not be read is one the snapshot does not hold.
#[derive(Clone, Copy, Debug, PartialEq, Eq, Structural)]
pub enum StoreError {
    KeyAbsent,
    ValueAbsent,
}

/// The first subkey with the given name, if any.
pub open spec fn node_key_spec(node: RegNode, name: Seq<char>) -> Option<RegNode> {
    node_key_from(node.keys@, name)
}

/// The first pair in `keys` whose name matches.
pub open spec fn node_key_from(keys: Seq<(String, RegNode)>, name: Seq<char>) -> Option<RegNode>
    decreases keys.len(),
{
    if keys.len() == 0 {
        None
    } else if keys[0].0@ == name {
        Some(keys[0].1)
    } else {
        node_key_from(keys.skip(1), name)
    }
}

/// The first value with the given name, if any.
pub open spec fn node_value_spec(node: RegNode, name: Seq<char>) -> Option<RegValue> {
    node_value_from(node.values@, name)
}

pub open spec fn node_value_from(values: Seq<(String, RegValue)>, name: Seq<char>)
    -> Option<RegValue>
    decreases values.len(),
{
    if values.len() == 0 {
        None
    } else if values[0].0@ == name {
        Some(values[0].1)
    } else {
        node_value_from(values.skip(1), name)
    }
}

/// Looks up the first subkey with the given name.
pub fn open_subkey<'a>(node: &'a RegNode, name: &str) -> (r: Option<&'a RegNode>)
    ensures
        match r {
            Some(child) => node_key_spec(*node, name@) == Some(*child),
            None => node_key_spec(*node, name@) is None,
        },
{
    let n = node.keys.len();
    let mut i: usize = 0;
    proof {
        assert(node.keys@.skip(0) =~= node.keys@);
    }
    while i < n
        invariant
            0 <= i <= n,
            n == node.keys@.len(),
            node_key_from(node.keys@, name@) == node_key_from(node.keys@.skip(i as int), name@),
        decreases n - i,
    {
        proof {
            assert(node.keys@.skip(i as int)[0] == node.keys@[i as int]);
            assert(node.keys@.skip(i as int).skip(1) =~= node.keys@.skip(i + 1));
        }
        if crate::strutil::str_eq(node.keys[i].0.as_str(), name) {
            return Some(&node.keys[i].1);
        }
        i = i + 1;
    }
    proof {
        assert(node.keys@.skip(n as int) =~= Seq::<(String, RegNode)>::empty());
    }
    None
}

/// Looks up the first value with the given name.
pub fn read_value<'a>(node: &'a RegNode, name: &str) -> (r: Option<&'a RegValue>)
    ensures
        match r {
            Some(v) => node_value_spec(*node, name@) == Some(*v),
            None => node_value_spec(*node, name@) is None,
        },
{
    let n = node.values.len();
    let mut i: usize = 0;
    proof {
        assert(node.values@.skip(0) =~= node.values@);
    }
    while i < n
        invariant
            0 <= i <= n,
            n == node.values@.len(),
            node_value_from(node.values@, name@) == node_value_from(
                node.values@.skip(i as int),
                name@,
            ),
        decreases n - i,
    {
        proof {
            assert(node.values@.skip(i as int)[0] == node.values@[i as int]);
            assert(node.values@.skip(i as int).skip(1) =~= node.values@.skip(i + 1));
        }
        if crate::strutil::str_eq(node.values[i].0.as_str(), name) {
            return Some(&node.values[i].1);
        }
        i = i + 1;
    }
    proof {
        assert(node.values@.skip(n as int) =~= Seq::<(String, RegValue)>::empty());
    }
    None
}

} // verus!
