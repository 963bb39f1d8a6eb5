//! The lines of a file listing: one per stored file, in table order.

use vstd::prelude::*;
use vstd::string::*;
use vstd::utf8::*;
use crate::fs_structs::FileNode;

verus! {

/// The character of a decimal digit.
pub open spec fn digit(d: nat) -> char {
    if d == 0 {
        '0'
    } else if d == 1 {
        '1'
    } else if d == 2 {
        '2'
    } else if d == 3 {
        '3'
    } else if d == 4 {
        '4'
    } else if d == 5 {
        '5'
    } else if d == 6 {
        '6'
    } else if d == 7 {
        '7'
    } else if d == 8 {
        '8'
    } else {
        '9'
    }
}

/// A number in decimal, without leading zeros.
pub open spec fn decimal(n: nat) -> Seq<char>
    decreases n,
{
    if n < 10 {
        seq![digit(n)]
    } else {
        decimal(n / 10).push(digit(n % 10))
    }
}

/// The line that stands for one file: its alias and its size, or a notice
/// with the size where the alias is not valid text.
pub open spec fn listing_line(node: FileNode) -> Seq<char> {
    if valid_utf8(node.alias_bytes()) {
        decode_utf8(node.alias_bytes()) + " ("@ + decimal(node.size as nat) + " bytes)"@
    } else {
        "[Error reading alias for filenode, size: "@ + decimal(node.size as nat) + "]"@
    }
}

/// The lines of the descriptors in use, in the order of their slots.
pub open spec fn listing(nodes: Seq<FileNode>) -> Seq<Seq<char>>
    decreases nodes.len(),
{
    if nodes.len() == 0 {
        Seq::empty()
    } else {
        let before = listing(nodes.drop_last());
        if nodes.last().is_used {
            before.push(listing_line(nodes.last()))
        } else {
            before
        }
    }
}

/// The text of each line of a listing.
pub open spec fn lines_view(lines: Seq<String>) -> Seq<Seq<char>> {
    Seq::new(lines.len(), |i: int| lines[i]@)
}

fn digit_str(d: usize) -> (s: &'static str)
    requires
        d < 10,
    ensures
        s@ == seq![digit(d as nat)],
{
    proof {
        reveal_strlit("0");
        reveal_strlit("1");
        reveal_strlit("2");
        reveal_strlit("3");
        reveal_strlit("4");
        reveal_strlit("5");
        reveal_strlit("6");
        reveal_strlit("7");
        reveal_strlit("8");
        reveal_strlit("9");
    }
    let s = if d == 0 {
        "0"
    } else if d == 1 {
        "1"
    } else if d == 2 {
        "2"
    } else if d == 3 {
        "3"
    } else if d == 4 {
        "4"
    } else if d == 5 {
        "5"
    } else if d == 6 {
        "6"
    } else if d == 7 {
        "7"
    } else if d == 8 {
        "8"
    } else {
        "9"
    };
    s
}

/// Appends `n` in decimal to `out`.
pub fn push_decimal(out: &mut String, n: usize)
    ensures
        final(out)@ == old(out)@ + decimal(n as nat),
    decreases n,
{
    if n >= 10 {
        push_decimal(out, n / 10);
    }
    out.append(digit_str(n % 10));
}

/// Writes the line that stands for one file.
pub fn format_line(node: &FileNode) -> (line: String)
    ensures
        line@ == listing_line(*node),
{
    match node.get_alias_str() {
        Ok(alias) => {
            let mut line = alias;
            line.append(" (");
            push_decimal(&mut line, node.size);
            line.append(" bytes)");
            line
        },
        Err(_) => {
            let mut line = String::from_str("[Error reading alias for filenode, size: ");
            push_decimal(&mut line, node.size);
            line.append("]");
            line
        },
    }
}

/// Writes the lines of the descriptors in use, in the order of their slots.
pub fn format_listing(nodes: &Vec<FileNode>) -> (lines: Vec<String>)
    ensures
        lines_view(lines@) == listing(nodes@),
{
    let mut lines: Vec<String> = Vec::new();
    let mut i: usize = 0;
    while i < nodes.len()
        invariant
            i <= nodes.len(),
            lines_view(lines@) == listing(nodes@.take(i as int)),
        decreases nodes.len() - i,
    {
        proof {
            assert(nodes@.take(i + 1).drop_last() == nodes@.take(i as int));
        }
        if nodes[i].is_used {
            let line = format_line(&nodes[i]);
            lines.push(line);
        }
        i += 1;
    }
    proof {
        assert(nodes@.take(i as int) == nodes@);
    }
    lines
}

} // verus!
