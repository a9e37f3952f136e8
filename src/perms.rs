//! Rendering of permission bits for file listings.
use vstd::prelude::*;

verus! {

/// `flag` when `set`, else `-`.
pub open spec fn flag_char(set: bool, flag: char) -> char {
    if set {
        flag
    } else {
        '-'
    }
}

/// The `rwx` triplet of `mode` for the given read, write and execute bits.
pub open spec fn triplet_spec(mode: u32, read: u32, write: u32, execute: u32) -> Seq<char> {
    seq![
        flag_char(mode & read != 0, 'r'),
        flag_char(mode & write != 0, 'w'),
        flag_char(mode & execute != 0, 'x'),
    ]
}

/// Renders the three permission bits `read`, `write` and `execute` of `mode`
/// as `r`, `w` and `x`, with `-` for a bit that is clear.
pub fn triplet(mode: u32, read: u32, write: u32, execute: u32) -> (r: String)
    ensures
        r@ == triplet_spec(mode, read, write, execute),
{
    let rd = mode & read != 0;
    let wr = mode & write != 0;
    let ex = mode & execute != 0;
    proof {
        reveal_strlit("---");
        reveal_strlit("r--");
        reveal_strlit("-w-");
        reveal_strlit("--x");
        reveal_strlit("r-x");
        reveal_strlit("rw-");
        reveal_strlit("-wx");
        reveal_strlit("rwx");
    }
    let s = match (rd, wr, ex) {
        (false, false, false) => "---",
        (true, false, false) => "r--",
        (false, true, false) => "-w-",
        (false, false, true) => "--x",
        (true, false, true) => "r-x",
        (true, true, false) => "rw-",
        (false, true, true) => "-wx",
        (true, true, true) => "rwx",
    };
    assert(s@ =~= triplet_spec(mode, read, write, execute));
    s.to_owned()
}

} // verus!
