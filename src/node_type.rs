//! The role a node starts in, from its command line.

use vstd::prelude::*;

verus! {

/// Whether a node runs as the primary or as a backup.
#[derive(Clone, Copy, PartialEq, Eq, Structural, Debug)]
pub enum NodeType {
    Primary,
    Backup,
}

impl NodeType {
    /// The role's name.
    pub fn label(&self) -> (r: &'static str)
        ensures
            *self == NodeType::Primary ==> r@ == "Primary"@,
            *self == NodeType::Backup ==> r@ == "Backup"@,
    {
        match self {
            NodeType::Primary => "Primary",
            NodeType::Backup => "Backup",
        }
    }
}

/// The role given by the command line `args` (the program name first):
/// no argument is a backup, the single argument `primary` is the primary;
/// anything else is refused.
pub fn determine_node_type(args: &Vec<String>) -> (r: Result<NodeType, ()>)
    ensures
        args@.len() == 1 ==> r == Ok::<NodeType, ()>(NodeType::Backup),
        args@.len() == 2 && args@[1]@ == "primary"@ ==> r == Ok::<NodeType, ()>(NodeType::Primary),
        !(args@.len() == 1 || (args@.len() == 2 && args@[1]@ == "primary"@)) ==> r is Err,
{
    if args.len() == 1 {
        Ok(NodeType::Backup)
    } else if args.len() == 2 {
        let expected = "primary".to_owned();
        if args[1] == expected {
            Ok(NodeType::Primary)
        } else {
            Err(())
        }
    } else {
        Err(())
    }
}

} // verus!
