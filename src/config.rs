//! The replica set a node is configured with.

use vstd::prelude::*;

verus! {

/// Whether every character of `s` is an ASCII digit.
pub open spec fn all_digits(s: Seq<char>) -> bool {
    forall|i: int| 0 <= i < s.len() ==> 48 <= #[trigger] (s[i] as u32) <= 57
}

/// The value of the decimal digits `s`.
pub open spec fn digits_value(s: Seq<char>) -> int
    decreases s.len(),
{
    if s.len() == 0 {
        0
    } else {
        digits_value(s.drop_last()) * 10 + (s.last() as u32 - 48)
    }
}

/// The `u64` that `s` spells: an optional `+`, then at least one decimal
/// digit, with a value that fits.
pub open spec fn decimal_u64(s: Seq<char>) -> Option<u64> {
    let d = if s.len() > 0 && s[0] == '+' {
        s.drop_first()
    } else {
        s
    };
    if d.len() > 0 && all_digits(d) && digits_value(d) <= u64::MAX {
        Some(digits_value(d) as u64)
    } else {
        None
    }
}

/// Relies on `str::parse::<u64>`: an optional `+` followed by decimal
/// digits whose value fits in a `u64`, and nothing else, parses.
#[verifier::external_body]
fn parse_u64(s: &str) -> (r: Option<u64>)
    ensures
        r == decimal_u64(s@),
{
    s.parse::<u64>().ok()
}

/// A TCP port, which also names a replica.
#[derive(Clone, Copy, PartialEq, Eq, Structural, Debug, Hash)]
pub struct Port {
    pub value: u64,
}

impl Port {
    pub fn new(value: u64) -> (r: Self)
        ensures
            r.value == value,
    {
        Port { value }
    }

    /// The port `s` spells in decimal; `None` where it spells no `u64`.
    pub fn parse(s: &str) -> (r: Option<Port>)
        ensures
            match decimal_u64(s@) {
                Some(v) => r == Some(Port { value: v }),
                None => r is None,
            },
    {
        match parse_u64(s) {
            Some(v) => Some(Port { value: v }),
            None => None,
        }
    }

    pub fn value(&self) -> (r: u64)
        ensures
            r == self.value,
    {
        self.value
    }
}

/// Why a configuration was refused.
#[derive(PartialEq, Eq, Structural, Clone, Copy, Debug)]
pub enum ConfigError {
    /// The primary is not one of the nodes.
    MissingPrimary,
}

/// The replicas of the network, in the order that decides the primary of
/// each view, and the initial primary.
pub struct Config {
    nodes: Vec<Port>,
    primary: Port,
}

impl Config {
    /// The replica set `nodes` with `primary` as its initial primary; it is
    /// refused when `primary` is not among `nodes`.
    pub fn new(nodes: Vec<Port>, primary: Port) -> (r: Result<Config, ConfigError>)
        ensures
            nodes@.contains(primary) ==> (r matches Ok(c) && c.spec_nodes() == nodes@ && c.spec_primary() == primary),
            !nodes@.contains(primary) ==> r == Err::<Config, ConfigError>(ConfigError::MissingPrimary),
    {
        let mut i: usize = 0;
        while i < nodes.len()
            invariant
                0 <= i <= nodes@.len(),
                forall|j: int| 0 <= j < i ==> nodes@[j] != primary,
            decreases nodes@.len() - i,
        {
            if nodes[i].value == primary.value {
                assert(nodes@[i as int] == primary);
                return Ok(Config { nodes, primary });
            }
            i = i + 1;
        }
        Err(ConfigError::MissingPrimary)
    }

    pub closed spec fn spec_nodes(&self) -> Seq<Port> {
        self.nodes@
    }

    pub closed spec fn spec_primary(&self) -> Port {
        self.primary
    }

    pub fn primary(&self) -> (r: Port)
        ensures
            r == self.spec_primary(),
    {
        self.primary
    }

    /// The replica ids, in order.
    pub fn replica_ids(&self) -> (r: Vec<u64>)
        ensures
            r@ == self.spec_nodes().map_values(|p: Port| p.value),
    {
        let mut r: Vec<u64> = Vec::new();
        let mut i: usize = 0;
        while i < self.nodes.len()
            invariant
                0 <= i <= self.nodes@.len(),
                r@ == self.nodes@.take(i as int).map_values(|p: Port| p.value),
            decreases self.nodes@.len() - i,
        {
            r.push(self.nodes[i].value);
            i = i + 1;
            assert(r@ =~= self.nodes@.take(i as int).map_values(|p: Port| p.value));
        }
        assert(self.nodes@.take(i as int) =~= self.nodes@);
        r
    }

    /// The replica ids in the order that makes the configured primary the
    /// primary of view 0: the primary first, then the other nodes in order.
    pub fn replica_order(&self) -> (r: Vec<u64>)
        ensures
            r@ == seq![self.spec_primary().value] + self.spec_nodes().filter(|p: Port| p != self.spec_primary()).map_values(
                |p: Port| p.value,
            ),
    {
        let others = self.all_nodes_without_me(self.primary);
        let mut r: Vec<u64> = Vec::new();
        r.push(self.primary.value);
        let mut i: usize = 0;
        while i < others.len()
            invariant
                0 <= i <= others@.len(),
                r@ == seq![self.primary.value] + others@.take(i as int).map_values(|p: Port| p.value),
            decreases others@.len() - i,
        {
            r.push(others[i].value);
            i = i + 1;
            assert(r@ =~= seq![self.primary.value] + others@.take(i as int).map_values(|p: Port| p.value));
        }
        assert(others@.take(i as int) =~= others@);
        r
    }

    /// The nodes other than `me`, in order.
    pub fn all_nodes_without_me(&self, me: Port) -> (r: Vec<Port>)
        ensures
            r@ == self.spec_nodes().filter(|p: Port| p != me),
    {
        let mut r: Vec<Port> = Vec::new();
        let mut i: usize = 0;
        while i < self.nodes.len()
            invariant
                0 <= i <= self.nodes@.len(),
                r@ == self.nodes@.take(i as int).filter(|p: Port| p != me),
            decreases self.nodes@.len() - i,
        {
            assert(self.nodes@.take(i + 1).drop_last() =~= self.nodes@.take(i as int));
            if self.nodes[i].value != me.value {
                r.push(self.nodes[i]);
            }
            i = i + 1;
            proof {
                reveal(Seq::filter);
            }
            assert(r@ =~= self.nodes@.take(i as int).filter(|p: Port| p != me));
        }
        assert(self.nodes@.take(i as int) =~= self.nodes@);
        r
    }
}

} // verus!
