use vstd::prelude::*;

use crate::inventory::{Compartment, CompartmentV, Container, ContainerV, Item, ItemV, Tag, TagV};
use crate::text::push_char;
use vstd::string::StringExecFns;

verus! {

/// The character for one hexadecimal digit, upper case.
pub open spec fn hex_digit_char(d: nat) -> char {
    if d == 0 {
        '0'
    } else if d == 1 {
        '1'
    } else if d == 2 {
        '2'
    } else if d == 3 {
        '3'
    } else if d == 4 {
        '4'
    } else if d == 5 {
        '5'
    } else if d == 6 {
        '6'
    } else if d == 7 {
        '7'
    } else if d == 8 {
        '8'
    } else if d == 9 {
        '9'
    } else if d == 10 {
        'A'
    } else if d == 11 {
        'B'
    } else if d == 12 {
        'C'
    } else if d == 13 {
        'D'
    } else if d == 14 {
        'E'
    } else {
        'F'
    }
}

/// The usual hexadecimal rendering of a natural number, upper case, without
/// padding.
pub open spec fn hex_of(n: nat) -> Seq<char>
    decreases n,
{
    if n < 16 {
        seq![hex_digit_char(n)]
    } else {
        hex_of(n / 16).push(hex_digit_char(n % 16))
    }
}

/// `s` padded on the left with `c` to at least four characters.
pub open spec fn pad4(s: Seq<char>, c: char) -> Seq<char> {
    if s.len() >= 4 {
        s
    } else if s.len() == 3 {
        seq![c] + s
    } else if s.len() == 2 {
        seq![c, c] + s
    } else if s.len() == 1 {
        seq![c, c, c] + s
    } else {
        seq![c, c, c, c] + s
    }
}

/// One overview line per compartment: zero-padded hex id, then the name.
pub open spec fn comp_line(c: CompartmentV) -> Seq<char> {
    pad4(hex_of(c.id as nat), '0') + " : "@ + c.name
}

/// One overview line per container: parent id, own id, then the name.
pub open spec fn cont_line(c: ContainerV) -> Seq<char> {
    pad4(hex_of(c.id_comp as nat), '0') + " "@ + pad4(hex_of(c.id as nat), '0') + " : "@ + c.name
}

/// One overview line per item: parent id, own id, then the name.
pub open spec fn item_line_spec(i: ItemV) -> Seq<char> {
    pad4(hex_of(i.id_cont as nat), '0') + " "@ + pad4(hex_of(i.id as nat), '0') + " : "@ + i.name
}

/// One overview line per tag: space-padded hex id, then the name.
pub open spec fn tag_line_spec(t: TagV) -> Seq<char> {
    pad4(hex_of(t.id as nat), ' ') + " : "@ + t.name
}

fn hex_digit_char_exec(d: u32) -> (r: char)
    requires
        d < 16,
    ensures
        r == hex_digit_char(d as nat),
{
    if d == 0 {
        '0'
    } else if d == 1 {
        '1'
    } else if d == 2 {
        '2'
    } else if d == 3 {
        '3'
    } else if d == 4 {
        '4'
    } else if d == 5 {
        '5'
    } else if d == 6 {
        '6'
    } else if d == 7 {
        '7'
    } else if d == 8 {
        '8'
    } else if d == 9 {
        '9'
    } else if d == 10 {
        'A'
    } else if d == 11 {
        'B'
    } else if d == 12 {
        'C'
    } else if d == 13 {
        'D'
    } else if d == 14 {
        'E'
    } else {
        'F'
    }
}

/// The hexadecimal rendering of an unsigned number, upper case.
pub fn u32_to_hex(n: u32) -> (r: String)
    ensures
        r@ == hex_of(n as nat),
    decreases n,
{
    if n < 16 {
        let mut r = String::new();
        push_char(&mut r, hex_digit_char_exec(n));
        proof {
            assert(r@ =~= hex_of(n as nat));
        }
        r
    } else {
        let mut r = u32_to_hex(n / 16);
        push_char(&mut r, hex_digit_char_exec(n % 16));
        r
    }
}

fn pad4_exec(s: &str, c: char) -> (r: String)
    ensures
        r@ == pad4(s@, c),
{
    let n = s.unicode_len();
    let mut out = String::new();
    if n == 0 {
        push_char(&mut out, c);
        push_char(&mut out, c);
        push_char(&mut out, c);
        push_char(&mut out, c);
    } else if n == 1 {
        push_char(&mut out, c);
        push_char(&mut out, c);
        push_char(&mut out, c);
    } else if n == 2 {
        push_char(&mut out, c);
        push_char(&mut out, c);
    } else if n == 3 {
        push_char(&mut out, c);
    }
    out.append(s);
    proof {
        assert(out@ =~= pad4(s@, c));
    }
    out
}

/// Renders a compartment's overview line.
pub fn compartment_line(c: &Compartment) -> (r: String)
    ensures
        r@ == comp_line(c@),
{
    let mut out = pad4_exec(u32_to_hex(c.id).as_str(), '0');
    out.append(" : ");
    out.append(c.name.as_str());
    proof {
        assert(out@ =~= comp_line(c@));
    }
    out
}

/// Renders a container's overview line.
pub fn container_line(c: &Container) -> (r: String)
    ensures
        r@ == cont_line(c@),
{
    let mut out = pad4_exec(u32_to_hex(c.id_comp).as_str(), '0');
    out.append(" ");
    let own = pad4_exec(u32_to_hex(c.id).as_str(), '0');
    out.append(own.as_str());
    out.append(" : ");
    out.append(c.name.as_str());
    proof {
        assert(out@ =~= cont_line(c@));
    }
    out
}

/// Renders an item's overview line.
pub fn item_line(i: &Item) -> (r: String)
    ensures
        r@ == item_line_spec(i@),
{
    let mut out = pad4_exec(u32_to_hex(i.id_cont).as_str(), '0');
    out.append(" ");
    let own = pad4_exec(u32_to_hex(i.id).as_str(), '0');
    out.append(own.as_str());
    out.append(" : ");
    out.append(i.name.as_str());
    proof {
        assert(out@ =~= item_line_spec(i@));
    }
    out
}

/// Renders a tag's overview line.
pub fn tag_line(t: &Tag) -> (r: String)
    ensures
        r@ == tag_line_spec(t@),
{
    let mut out = pad4_exec(u32_to_hex(t.id).as_str(), ' ');
    out.append(" : ");
    out.append(t.name.as_str());
    proof {
        assert(out@ =~= tag_line_spec(t@));
    }
    out
}

} // verus!
