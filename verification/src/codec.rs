use vstd::prelude::*;

use crate::inventory::{
    Compartment, CompartmentV, Container, ContainerV, Inventory, InventoryV, Item, ItemV, Tag, TagV,
};
use crate::text::{dec_of, digit_char, digit_val, is_dec_digit, push_char, str_chars, u32_to_string};
use vstd::string::StringExecFns;

verus! {

// ---------------------------------------------------------------------------
// Numbers: decimal runs.
// ---------------------------------------------------------------------------
/// End of the maximal run of decimal digits starting at `i`.
pub open spec fn num_end(s: Seq<char>, i: int) -> int
    decreases s.len() - i,
{
    if i < 0 || i >= s.len() || !is_dec_digit(s[i]) {
        i
    } else {
        num_end(s, i + 1)
    }
}

/// Left-to-right decimal value of `s[i..j)` on top of `acc`.
pub open spec fn val_from(s: Seq<char>, i: int, j: int, acc: nat) -> nat
    decreases j - i,
{
    if !(0 <= i < j && j <= s.len()) {
        acc
    } else {
        val_from(s, i + 1, j, acc * 10 + digit_val(s[i]))
    }
}

/// A decimal number at `i`: at least one digit, value within `u32`.
pub open spec fn p_num(s: Seq<char>, i: int) -> Option<(u32, int)> {
    let e = num_end(s, i);
    if e == i {
        None
    } else {
        let n = val_from(s, i, e, 0);
        if n > u32::MAX as nat {
            None
        } else {
            Some((n as u32, e))
        }
    }
}

proof fn lemma_num_end_bounds(s: Seq<char>, i: int)
    requires
        0 <= i <= s.len(),
    ensures
        i <= num_end(s, i) <= s.len(),
    decreases s.len() - i,
{
    if i < s.len() && is_dec_digit(s[i]) {
        lemma_num_end_bounds(s, i + 1);
    }
}

proof fn lemma_num_end_stops(s: Seq<char>, i: int, e: int)
    requires
        0 <= i <= e <= s.len(),
        forall|k: int| i <= k < e ==> is_dec_digit(#[trigger] s[k]),
        e == s.len() || !is_dec_digit(s[e]),
    ensures
        num_end(s, i) == e,
    decreases e - i,
{
    if i < e {
        lemma_num_end_stops(s, i + 1, e);
    }
}

proof fn lemma_digit_roundtrip(d: nat)
    requires
        d < 10,
    ensures
        digit_val(digit_char(d)) == d,
{
}

/// All characters of a decimal rendering are digits.
proof fn lemma_dec_of_digits(n: nat)
    ensures
        dec_of(n).len() >= 1,
        forall|k: int| 0 <= k < dec_of(n).len() ==> is_dec_digit(#[trigger] dec_of(n)[k]),
    decreases n,
{
    if n >= 10 {
        lemma_dec_of_digits(n / 10);
    }
}

proof fn lemma_val_from_step(s: Seq<char>, i: int, j: int, acc: nat)
    requires
        0 <= i <= j < s.len(),
    ensures
        val_from(s, i, j + 1, acc) == val_from(s, i, j, acc) * 10 + digit_val(s[j]),
    decreases j - i,
{
    if i < j {
        lemma_val_from_step(s, i + 1, j, acc * 10 + digit_val(s[i]));
    } else {
        assert(val_from(s, i + 1, j + 1, acc * 10 + digit_val(s[i])) == acc * 10 + digit_val(
            s[i],
        ));
    }
}

proof fn lemma_val_from_lower_bound(s: Seq<char>, i: int, j: int, acc: nat)
    ensures
        val_from(s, i, j, acc) >= acc,
    decreases j - i,
{
    if 0 <= i < j && j <= s.len() {
        lemma_val_from_lower_bound(s, i + 1, j, acc * 10 + digit_val(s[i]));
    }
}

/// The decimal value of an encoded number reads back as the number.
proof fn lemma_val_from_dec(s: Seq<char>, i: int, n: nat)
    requires
        0 <= i,
        i + dec_of(n).len() <= s.len(),
        s.subrange(i, i + dec_of(n).len()) == dec_of(n),
    ensures
        val_from(s, i, i + dec_of(n).len(), 0) == n,
    decreases n,
{
    let d = dec_of(n);
    let e = i + d.len();
    if n < 10 {
        assert(s[i] == d[0]);
        lemma_digit_roundtrip(n);
        assert(val_from(s, i + 1, e, 0 * 10 + digit_val(s[i])) == digit_val(s[i]));
        assert(val_from(s, i, e, 0) == digit_val(s[i]));
    } else {
        let dh = dec_of(n / 10);
        assert(d == dh.push(digit_char(n % 10)));
        assert(s.subrange(i, e - 1) =~= dh) by {
            assert(forall|k: int| 0 <= k < dh.len() ==> d[k] == dh[k]);
        };
        lemma_val_from_dec(s, i, n / 10);
        lemma_val_from_step(s, i, e - 1, 0);
        assert(s[e - 1] == d[d.len() - 1]);
        assert(d[d.len() - 1] == digit_char(n % 10));
        lemma_digit_roundtrip(n % 10);
        assert(val_from(s, i, e, 0) == (n / 10) * 10 + n % 10);
    }
}

/// Parsing at an encoded number, with no digit right after it, yields exactly
/// that number.
proof fn lemma_p_num_of_enc(s: Seq<char>, i: int, n: u32)
    requires
        0 <= i,
        i + dec_of(n as nat).len() < s.len(),
        s.subrange(i, i + dec_of(n as nat).len()) == dec_of(n as nat),
        !is_dec_digit(s[i + dec_of(n as nat).len()]),
    ensures
        p_num(s, i) == Some((n, i + dec_of(n as nat).len())),
{
    let d = dec_of(n as nat);
    let e = i + d.len();
    lemma_dec_of_digits(n as nat);
    assert(forall|k: int| i <= k < e ==> is_dec_digit(#[trigger] s[k])) by {
        assert(forall|k: int| i <= k < e ==> s[k] == d[k - i]);
    };
    lemma_num_end_stops(s, i, e);
    lemma_val_from_dec(s, i, n as nat);
}

// ---------------------------------------------------------------------------
// Strings: double-quoted, with `"` and `\` escaped by a backslash.
// ---------------------------------------------------------------------------
pub open spec fn esc_char(c: char) -> Seq<char> {
    if c == '"' || c == '\\' {
        seq!['\\', c]
    } else {
        seq![c]
    }
}

pub open spec fn esc(s: Seq<char>) -> Seq<char>
    decreases s.len(),
{
    if s.len() == 0 {
        Seq::empty()
    } else {
        esc_char(s[0]) + esc(s.drop_first())
    }
}

/// The encoding of a name: quoted, with quotes and backslashes escaped.
pub open spec fn enc_str(s: Seq<char>) -> Seq<char> {
    seq!['"'] + esc(s) + seq!['"']
}

/// The body of a quoted string from `i` up to the closing quote.
pub open spec fn p_str_body(s: Seq<char>, i: int) -> Option<(Seq<char>, int)>
    decreases s.len() - i,
{
    if i < 0 || i >= s.len() {
        None
    } else if s[i] == '"' {
        Some((Seq::empty(), i + 1))
    } else if s[i] == '\\' {
        if i + 1 < s.len() && (s[i + 1] == '"' || s[i + 1] == '\\') {
            match p_str_body(s, i + 2) {
                None => None,
                Some((t, j)) => Some((seq![s[i + 1]] + t, j)),
            }
        } else {
            None
        }
    } else {
        match p_str_body(s, i + 1) {
            None => None,
            Some((t, j)) => Some((seq![s[i]] + t, j)),
        }
    }
}

/// A quoted string at `i`.
pub open spec fn p_str(s: Seq<char>, i: int) -> Option<(Seq<char>, int)> {
    if 0 <= i < s.len() && s[i] == '"' {
        p_str_body(s, i + 1)
    } else {
        None
    }
}

proof fn lemma_p_str_body_progress(s: Seq<char>, i: int)
    requires
        p_str_body(s, i) is Some,
    ensures
        i < p_str_body(s, i)->Some_0.1 <= s.len(),
    decreases s.len() - i,
{
    if s[i] == '"' {
    } else if s[i] == '\\' {
        lemma_p_str_body_progress(s, i + 2);
    } else {
        lemma_p_str_body_progress(s, i + 1);
    }
}

#[verifier::rlimit(50)]
proof fn lemma_p_str_body_of_enc(s: Seq<char>, i: int, t: Seq<char>)
    requires
        0 <= i,
        i + esc(t).len() < s.len(),
        s.subrange(i, i + esc(t).len()) == esc(t),
        s[i + esc(t).len()] == '"',
    ensures
        p_str_body(s, i) == Some((t, i + esc(t).len() + 1)),
    decreases t.len(),
{
    if t.len() == 0 {
        assert(s[i] == '"');
    } else {
        let c = t[0];
        let rest = t.drop_first();
        assert(esc(t) == esc_char(c) + esc(rest));
        let clen = esc_char(c).len();
        assert(s.subrange(i + clen, i + esc(t).len()) =~= esc(rest)) by {
            assert(forall|k: int|
                0 <= k < esc(rest).len() ==> esc(t)[clen + k] == esc(rest)[k]);
        };
        lemma_p_str_body_of_enc(s, i + clen, rest);
        if c == '"' || c == '\\' {
            assert(s[i] == esc(t)[0]);
            assert(s[i + 1] == esc(t)[1]);
            assert(s[i] == '\\');
            assert(s[i + 1] == c);
            assert(seq![s[i + 1]] + rest =~= t);
        } else {
            assert(s[i] == esc(t)[0]);
            assert(s[i] == c);
            assert(seq![s[i]] + rest =~= t);
        }
    }
}

/// Parsing at an encoded string yields exactly the characters that were
/// encoded.
proof fn lemma_p_str_of_enc(s: Seq<char>, i: int, t: Seq<char>)
    requires
        0 <= i,
        i + enc_str(t).len() <= s.len(),
        s.subrange(i, i + enc_str(t).len()) == enc_str(t),
    ensures
        p_str(s, i) == Some((t, i + enc_str(t).len())),
{
    assert(s[i] == enc_str(t)[0]);
    assert(s.subrange(i + 1, i + 1 + esc(t).len()) =~= esc(t)) by {
        assert(forall|k: int| 0 <= k < esc(t).len() ==> enc_str(t)[1 + k] == esc(t)[k]);
    };
    assert(s[i + 1 + esc(t).len()] == enc_str(t)[1 + esc(t).len() as int]);
    lemma_p_str_body_of_enc(s, i + 1, t);
}



// ---------------------------------------------------------------------------
// Fixed pieces of the snapshot grammar.
// ---------------------------------------------------------------------------
pub open spec fn match_lit(s: Seq<char>, i: int, lit: Seq<char>) -> bool {
    0 <= i && i + lit.len() <= s.len() && s.subrange(i, i + lit.len()) == lit
}

pub open spec fn lit_name() -> Seq<char> {
    "{\"name\":"@
}

pub open spec fn lit_id() -> Seq<char> {
    ",\"id\":"@
}

pub open spec fn lit_id_comp() -> Seq<char> {
    ",\"id_comp\":"@
}

pub open spec fn lit_id_cont() -> Seq<char> {
    ",\"id_cont\":"@
}

pub open spec fn lit_items() -> Seq<char> {
    ",\"items\":"@
}

pub open spec fn lit_tags() -> Seq<char> {
    ",\"tags\":"@
}

pub open spec fn lit_containers() -> Seq<char> {
    ",\"containers\":"@
}

pub open spec fn lit_head() -> Seq<char> {
    "{\"compartments\":"@
}

pub open spec fn lit_cnt_compartment() -> Seq<char> {
    ",\"cnt_compartment\":"@
}

pub open spec fn lit_cnt_container() -> Seq<char> {
    ",\"cnt_container\":"@
}

pub open spec fn lit_cnt_item() -> Seq<char> {
    ",\"cnt_item\":"@
}

pub open spec fn lit_cnt_tag() -> Seq<char> {
    ",\"cnt_tag\":"@
}

pub open spec fn lit_close() -> Seq<char> {
    "}"@
}

/// Lengths and first characters of the grammar's fixed pieces.
proof fn lemma_lits()
    ensures
        lit_name().len() >= 1 && lit_name()[0] == '{',
        lit_id().len() >= 1 && lit_id()[0] == ',',
        lit_id_comp().len() >= 1 && lit_id_comp()[0] == ',',
        lit_id_cont().len() >= 1 && lit_id_cont()[0] == ',',
        lit_items().len() >= 1 && lit_items()[0] == ',',
        lit_tags().len() >= 1 && lit_tags()[0] == ',',
        lit_containers().len() >= 1 && lit_containers()[0] == ',',
        lit_head().len() >= 1 && lit_head()[0] == '{',
        lit_cnt_compartment().len() >= 1 && lit_cnt_compartment()[0] == ',',
        lit_cnt_container().len() >= 1 && lit_cnt_container()[0] == ',',
        lit_cnt_item().len() >= 1 && lit_cnt_item()[0] == ',',
        lit_cnt_tag().len() >= 1 && lit_cnt_tag()[0] == ',',
        lit_close().len() == 1 && lit_close()[0] == '}',
{
    reveal_strlit("{\"name\":");
    reveal_strlit(",\"id\":");
    reveal_strlit(",\"id_comp\":");
    reveal_strlit(",\"id_cont\":");
    reveal_strlit(",\"items\":");
    reveal_strlit(",\"tags\":");
    reveal_strlit(",\"containers\":");
    reveal_strlit("{\"compartments\":");
    reveal_strlit(",\"cnt_compartment\":");
    reveal_strlit(",\"cnt_container\":");
    reveal_strlit(",\"cnt_item\":");
    reveal_strlit(",\"cnt_tag\":");
    reveal_strlit("}");
}

/// Splits knowledge about a stretch of `s` holding `x + y` into the two
/// parts.
proof fn lemma_split_concat(s: Seq<char>, i: int, x: Seq<char>, y: Seq<char>)
    requires
        0 <= i,
        i + x.len() + y.len() <= s.len(),
        s.subrange(i, i + x.len() + y.len()) == x + y,
    ensures
        s.subrange(i, i + x.len()) == x,
        s.subrange(i + x.len(), i + x.len() + y.len()) == y,
{
    let w = x + y;
    assert(forall|k: int| 0 <= k < w.len() ==> s[i + k] == #[trigger] w[k]) by {
        assert(forall|k: int|
            0 <= k < w.len() ==> s.subrange(i, i + w.len() as int)[k] == #[trigger] w[k]);
    };
    assert(s.subrange(i, i + x.len()) =~= x);
    assert forall|k: int| 0 <= k < y.len() implies s.subrange(
        i + x.len(),
        i + x.len() + y.len(),
    )[k] == y[k] by {
        assert(s[i + x.len() + k] == w[x.len() + k]);
    };
    assert(s.subrange(i + x.len(), i + x.len() + y.len()) =~= y);
}

// ---------------------------------------------------------------------------
// Lists of ids.
// ---------------------------------------------------------------------------
pub open spec fn enc_ids_rest(l: Seq<u32>) -> Seq<char>
    decreases l.len(),
{
    if l.len() == 0 {
        Seq::empty()
    } else {
        seq![','] + dec_of(l[0] as nat) + enc_ids_rest(l.drop_first())
    }
}

/// The encoding of an id list: decimal numbers between square brackets.
pub open spec fn enc_ids(l: Seq<u32>) -> Seq<char> {
    if l.len() == 0 {
        seq!['[', ']']
    } else {
        seq!['['] + dec_of(l[0] as nat) + enc_ids_rest(l.drop_first()) + seq![']']
    }
}

pub open spec fn p_ids_rest(s: Seq<char>, i: int, acc: Seq<u32>) -> Option<(Seq<u32>, int)>
    decreases s.len() - i,
{
    if i < 0 || i >= s.len() {
        None
    } else if s[i] == ']' {
        Some((acc, i + 1))
    } else if s[i] == ',' {
        match p_num(s, i + 1) {
            None => None,
            Some((n, j)) => {
                if i + 1 < j && j <= s.len() {
                    p_ids_rest(s, j, acc.push(n))
                } else {
                    None
                }
            },
        }
    } else {
        None
    }
}

/// An id list at `i`.
pub open spec fn p_ids(s: Seq<char>, i: int) -> Option<(Seq<u32>, int)> {
    if !(0 <= i < s.len()) || s[i] != '[' {
        None
    } else if i + 1 < s.len() && s[i + 1] == ']' {
        Some((Seq::empty(), i + 2))
    } else {
        match p_num(s, i + 1) {
            None => None,
            Some((n, j)) => {
                if i + 1 < j && j <= s.len() {
                    p_ids_rest(s, j, seq![n])
                } else {
                    None
                }
            },
        }
    }
}

proof fn lemma_p_ids_rest_of_enc(s: Seq<char>, i: int, l: Seq<u32>, acc: Seq<u32>)
    requires
        0 <= i,
        i + enc_ids_rest(l).len() < s.len(),
        s.subrange(i, i + enc_ids_rest(l).len()) == enc_ids_rest(l),
        s[i + enc_ids_rest(l).len()] == ']',
    ensures
        p_ids_rest(s, i, acc) == Some((acc + l, i + enc_ids_rest(l).len() + 1)),
    decreases l.len(),
{
    let w = enc_ids_rest(l);
    let e = i + w.len();
    if l.len() == 0 {
        assert(s[i] == ']');
        assert(acc + l =~= acc);
    } else {
        let d = dec_of(l[0] as nat);
        let rest = enc_ids_rest(l.drop_first());
        assert(w =~= seq![','] + (d + rest));
        lemma_split_concat(s, i, seq![','], d + rest);
        assert(s[i] == ',') by {
            assert(s.subrange(i, i + 1)[0] == seq![','][0]);
        };
        lemma_split_concat(s, i + 1, d, rest);
        let j = i + 1 + d.len();
        if rest.len() == 0 {
            assert(s[j] == ']');
        } else {
            assert(s[j] == rest[0]) by {
                assert(s.subrange(j, e)[0] == rest[0]);
            };
            assert(rest[0] == ',');
        }
        lemma_p_num_of_enc(s, i + 1, l[0]);
        lemma_p_ids_rest_of_enc(s, j, l.drop_first(), acc.push(l[0]));
        assert(acc.push(l[0]) + l.drop_first() =~= acc + l);
    }
}

proof fn lemma_p_ids_of_enc(s: Seq<char>, i: int, l: Seq<u32>)
    requires
        0 <= i,
        i + enc_ids(l).len() <= s.len(),
        s.subrange(i, i + enc_ids(l).len()) == enc_ids(l),
    ensures
        p_ids(s, i) == Some((l, i + enc_ids(l).len())),
{
    let w = enc_ids(l);
    let e = i + w.len();
    assert(s[i] == w[0]) by {
        assert(s.subrange(i, e)[0] == w[0]);
    };
    if l.len() == 0 {
        assert(s[i] == '[');
        assert(s[i + 1] == w[1]) by {
            assert(s.subrange(i, e)[1] == w[1]);
        };
        assert(s[i + 1] == ']');
    } else {
        let d = dec_of(l[0] as nat);
        let rest = enc_ids_rest(l.drop_first());
        assert(w =~= seq!['['] + (d + (rest + seq![']'])));
        lemma_split_concat(s, i, seq!['['], d + (rest + seq![']']));
        lemma_split_concat(s, i + 1, d, rest + seq![']']);
        let j = i + 1 + d.len();
        lemma_split_concat(s, j, rest, seq![']']);
        assert(s[j + rest.len()] == ']') by {
            assert(s.subrange(j + rest.len(), e)[0] == seq![']'][0]);
        };
        lemma_dec_of_digits(l[0] as nat);
        assert(s[i + 1] == d[0]) by {
            assert(s.subrange(i + 1, j)[0] == d[0]);
        };
        assert(is_dec_digit(s[i + 1]));
        assert(s[i + 1] != ']');
        if rest.len() == 0 {
            assert(s[j] == ']');
        } else {
            assert(s[j] == rest[0]) by {
                assert(s.subrange(j, j + rest.len())[0] == rest[0]);
            };
            assert(rest[0] == ',');
        }
        lemma_p_num_of_enc(s, i + 1, l[0]);
        lemma_p_ids_rest_of_enc(s, j, l.drop_first(), seq![l[0]]);
        assert(seq![l[0]] + l.drop_first() =~= l);
    }
}



// ---------------------------------------------------------------------------
// Entities.
// ---------------------------------------------------------------------------
/// The encoding of one tag.
pub open spec fn enc_tag(t: TagV) -> Seq<char> {
    lit_name() + enc_str(t.name) + lit_id() + dec_of(t.id as nat) + lit_close()
}

/// One tag at `i`.
pub open spec fn p_tag(s: Seq<char>, i: int) -> Option<(TagV, int)> {
    if !match_lit(s, i, lit_name()) {
        None
    } else {
        match p_str(s, i + lit_name().len()) {
            None => None,
            Some((name, p2)) => {
                if !match_lit(s, p2, lit_id()) {
                    None
                } else {
                    match p_num(s, p2 + lit_id().len()) {
                        None => None,
                        Some((id, p4)) => {
                            if match_lit(s, p4, lit_close()) {
                                Some((TagV { name, id }, p4 + lit_close().len()))
                            } else {
                                None
                            }
                        },
                    }
                }
            },
        }
    }
}

proof fn lemma_p_tag_of_enc(s: Seq<char>, i: int, t: TagV)
    requires
        0 <= i,
        i + enc_tag(t).len() <= s.len(),
        s.subrange(i, i + enc_tag(t).len()) == enc_tag(t),
    ensures
        p_tag(s, i) == Some((t, i + enc_tag(t).len())),
        enc_tag(t).len() >= 1,
        enc_tag(t)[0] == '{',
{
    lemma_lits();
    let a = lit_name();
    let b = enc_str(t.name);
    let c = lit_id();
    let d = dec_of(t.id as nat);
    let e = lit_close();
    let w = enc_tag(t);
    assert(w =~= a + (b + (c + (d + e))));
    lemma_split_concat(s, i, a, b + (c + (d + e)));
    let p1 = i + a.len();
    lemma_split_concat(s, p1, b, c + (d + e));
    let p2 = p1 + b.len();
    lemma_split_concat(s, p2, c, d + e);
    let p3 = p2 + c.len();
    lemma_split_concat(s, p3, d, e);
    let p4 = p3 + d.len();
    assert(s[p4] == e[0]) by {
        assert(s.subrange(p4, p4 + e.len())[0] == e[0]);
    };
    lemma_p_str_of_enc(s, p1, t.name);
    lemma_p_num_of_enc(s, p3, t.id);
    assert(p_tag(s, i) == Some((TagV { name: t.name, id: t.id }, p4 + e.len())));
    assert(TagV { name: t.name, id: t.id } =~= t);
}

/// The encoding of one item.
pub open spec fn enc_item(t: ItemV) -> Seq<char> {
    lit_name() + enc_str(t.name) + lit_id() + dec_of(t.id as nat) + lit_id_cont() + dec_of(
        t.id_cont as nat,
    ) + lit_close()
}

/// One item at `i`.
pub open spec fn p_item(s: Seq<char>, i: int) -> Option<(ItemV, int)> {
    if !match_lit(s, i, lit_name()) {
        None
    } else {
        match p_str(s, i + lit_name().len()) {
            None => None,
            Some((name, p2)) => {
                if !match_lit(s, p2, lit_id()) {
                    None
                } else {
                    match p_num(s, p2 + lit_id().len()) {
                        None => None,
                        Some((id, p4)) => {
                            if !match_lit(s, p4, lit_id_cont()) {
                                None
                            } else {
                                match p_num(s, p4 + lit_id_cont().len()) {
                                    None => None,
                                    Some((id_cont, p6)) => {
                                        if match_lit(s, p6, lit_close()) {
                                            Some(
                                                (
                                                    ItemV { name, id, id_cont },
                                                    p6 + lit_close().len(),
                                                ),
                                            )
                                        } else {
                                            None
                                        }
                                    },
                                }
                            }
                        },
                    }
                }
            },
        }
    }
}

#[verifier::rlimit(100)]
proof fn lemma_p_item_of_enc(s: Seq<char>, i: int, t: ItemV)
    requires
        0 <= i,
        i + enc_item(t).len() <= s.len(),
        s.subrange(i, i + enc_item(t).len()) == enc_item(t),
    ensures
        p_item(s, i) == Some((t, i + enc_item(t).len())),
        enc_item(t).len() >= 1,
        enc_item(t)[0] == '{',
{
    lemma_lits();
    let a = lit_name();
    let b = enc_str(t.name);
    let c = lit_id();
    let d = dec_of(t.id as nat);
    let e = lit_id_cont();
    let f = dec_of(t.id_cont as nat);
    let g = lit_close();
    let w = enc_item(t);
    assert(w =~= a + (b + (c + (d + (e + (f + g))))));
    lemma_split_concat(s, i, a, b + (c + (d + (e + (f + g)))));
    let p1 = i + a.len();
    lemma_split_concat(s, p1, b, c + (d + (e + (f + g))));
    let p2 = p1 + b.len();
    lemma_split_concat(s, p2, c, d + (e + (f + g)));
    let p3 = p2 + c.len();
    lemma_split_concat(s, p3, d, e + (f + g));
    let p4 = p3 + d.len();
    lemma_split_concat(s, p4, e, f + g);
    let p5 = p4 + e.len();
    lemma_split_concat(s, p5, f, g);
    let p6 = p5 + f.len();
    assert(s[p4] == e[0]) by {
        assert(s.subrange(p4, p4 + e.len())[0] == e[0]);
    };
    assert(s[p6] == g[0]) by {
        assert(s.subrange(p6, p6 + g.len())[0] == g[0]);
    };
    lemma_p_str_of_enc(s, p1, t.name);
    lemma_p_num_of_enc(s, p3, t.id);
    lemma_p_num_of_enc(s, p5, t.id_cont);
    assert(p_item(s, i) == Some(
        (ItemV { name: t.name, id: t.id, id_cont: t.id_cont }, p6 + g.len()),
    ));
    assert(ItemV { name: t.name, id: t.id, id_cont: t.id_cont } =~= t);
}

/// The encoding of one compartment.
pub open spec fn enc_comp(t: CompartmentV) -> Seq<char> {
    lit_name() + enc_str(t.name) + lit_id() + dec_of(t.id as nat) + lit_containers() + enc_ids(
        t.containers,
    ) + lit_close()
}

/// One compartment at `i`.
pub open spec fn p_comp(s: Seq<char>, i: int) -> Option<(CompartmentV, int)> {
    if !match_lit(s, i, lit_name()) {
        None
    } else {
        match p_str(s, i + lit_name().len()) {
            None => None,
            Some((name, p2)) => {
                if !match_lit(s, p2, lit_id()) {
                    None
                } else {
                    match p_num(s, p2 + lit_id().len()) {
                        None => None,
                        Some((id, p4)) => {
                            if !match_lit(s, p4, lit_containers()) {
                                None
                            } else {
                                match p_ids(s, p4 + lit_containers().len()) {
                                    None => None,
                                    Some((containers, p6)) => {
                                        if match_lit(s, p6, lit_close()) {
                                            Some(
                                                (
                                                    CompartmentV { name, id, containers },
                                                    p6 + lit_close().len(),
                                                ),
                                            )
                                        } else {
                                            None
                                        }
                                    },
                                }
                            }
                        },
                    }
                }
            },
        }
    }
}

#[verifier::rlimit(100)]
proof fn lemma_p_comp_of_enc(s: Seq<char>, i: int, t: CompartmentV)
    requires
        0 <= i,
        i + enc_comp(t).len() <= s.len(),
        s.subrange(i, i + enc_comp(t).len()) == enc_comp(t),
    ensures
        p_comp(s, i) == Some((t, i + enc_comp(t).len())),
        enc_comp(t).len() >= 1,
        enc_comp(t)[0] == '{',
{
    lemma_lits();
    let a = lit_name();
    let b = enc_str(t.name);
    let c = lit_id();
    let d = dec_of(t.id as nat);
    let e = lit_containers();
    let f = enc_ids(t.containers);
    let g = lit_close();
    let w = enc_comp(t);
    assert(w =~= a + (b + (c + (d + (e + (f + g))))));
    lemma_split_concat(s, i, a, b + (c + (d + (e + (f + g)))));
    let p1 = i + a.len();
    lemma_split_concat(s, p1, b, c + (d + (e + (f + g))));
    let p2 = p1 + b.len();
    lemma_split_concat(s, p2, c, d + (e + (f + g)));
    let p3 = p2 + c.len();
    lemma_split_concat(s, p3, d, e + (f + g));
    let p4 = p3 + d.len();
    lemma_split_concat(s, p4, e, f + g);
    let p5 = p4 + e.len();
    lemma_split_concat(s, p5, f, g);
    let p6 = p5 + f.len();
    assert(s[p4] == e[0]) by {
        assert(s.subrange(p4, p4 + e.len())[0] == e[0]);
    };
    assert(s[p6] == g[0]) by {
        assert(s.subrange(p6, p6 + g.len())[0] == g[0]);
    };
    lemma_p_str_of_enc(s, p1, t.name);
    lemma_p_num_of_enc(s, p3, t.id);
    lemma_p_ids_of_enc(s, p5, t.containers);
    assert(p_comp(s, i) == Some(
        (CompartmentV { name: t.name, id: t.id, containers: t.containers }, p6 + g.len()),
    ));
    assert(CompartmentV { name: t.name, id: t.id, containers: t.containers } =~= t);
}

/// The encoding of one container.
pub open spec fn enc_cont(t: ContainerV) -> Seq<char> {
    lit_name() + enc_str(t.name) + lit_id() + dec_of(t.id as nat) + lit_id_comp() + dec_of(
        t.id_comp as nat,
    ) + lit_items() + enc_ids(t.items) + lit_tags() + enc_ids(t.tags) + lit_close()
}

/// One container at `i`.
pub open spec fn p_cont(s: Seq<char>, i: int) -> Option<(ContainerV, int)> {
    if !match_lit(s, i, lit_name()) {
        None
    } else {
        match p_str(s, i + lit_name().len()) {
            None => None,
            Some((name, p2)) => {
                if !match_lit(s, p2, lit_id()) {
                    None
                } else {
                    match p_num(s, p2 + lit_id().len()) {
                        None => None,
                        Some((id, p4)) => {
                            if !match_lit(s, p4, lit_id_comp()) {
                                None
                            } else {
                                match p_num(s, p4 + lit_id_comp().len()) {
                                    None => None,
                                    Some((id_comp, p6)) => {
                                        if !match_lit(s, p6, lit_items()) {
                                            None
                                        } else {
                                            match p_ids(s, p6 + lit_items().len()) {
                                                None => None,
                                                Some((items, p8)) => {
                                                    if !match_lit(s, p8, lit_tags()) {
                                                        None
                                                    } else {
                                                        match p_ids(s, p8 + lit_tags().len()) {
                                                            None => None,
                                                            Some((tags, p10)) => {
                                                                if match_lit(
                                                                    s,
                                                                    p10,
                                                                    lit_close(),
                                                                ) {
                                                                    Some(
                                                                        (
                                                                            ContainerV {
                                                                                name,
                                                                                id,
                                                                                id_comp,
                                                                                items,
                                                                                tags,
                                                                            },
                                                                            p10
                                                                                + lit_close().len(),
                                                                        ),
                                                                    )
                                                                } else {
                                                                    None
                                                                }
                                                            },
                                                        }
                                                    }
                                                },
                                            }
                                        }
                                    },
                                }
                            }
                        },
                    }
                }
            },
        }
    }
}

#[verifier::rlimit(100)]
proof fn lemma_p_cont_of_enc(s: Seq<char>, i: int, t: ContainerV)
    requires
        0 <= i,
        i + enc_cont(t).len() <= s.len(),
        s.subrange(i, i + enc_cont(t).len()) == enc_cont(t),
    ensures
        p_cont(s, i) == Some((t, i + enc_cont(t).len())),
        enc_cont(t).len() >= 1,
        enc_cont(t)[0] == '{',
{
    lemma_lits();
    let a = lit_name();
    let b = enc_str(t.name);
    let c = lit_id();
    let d = dec_of(t.id as nat);
    let e = lit_id_comp();
    let f = dec_of(t.id_comp as nat);
    let g = lit_items();
    let h = enc_ids(t.items);
    let k2 = lit_tags();
    let m = enc_ids(t.tags);
    let z = lit_close();
    let w = enc_cont(t);
    assert(w =~= a + (b + (c + (d + (e + (f + (g + (h + (k2 + (m + z))))))))));
    lemma_split_concat(s, i, a, b + (c + (d + (e + (f + (g + (h + (k2 + (m + z)))))))));
    let p1 = i + a.len();
    lemma_split_concat(s, p1, b, c + (d + (e + (f + (g + (h + (k2 + (m + z))))))));
    let p2 = p1 + b.len();
    lemma_split_concat(s, p2, c, d + (e + (f + (g + (h + (k2 + (m + z)))))));
    let p3 = p2 + c.len();
    lemma_split_concat(s, p3, d, e + (f + (g + (h + (k2 + (m + z))))));
    let p4 = p3 + d.len();
    lemma_split_concat(s, p4, e, f + (g + (h + (k2 + (m + z)))));
    let p5 = p4 + e.len();
    lemma_split_concat(s, p5, f, g + (h + (k2 + (m + z))));
    let p6 = p5 + f.len();
    lemma_split_concat(s, p6, g, h + (k2 + (m + z)));
    let p7 = p6 + g.len();
    lemma_split_concat(s, p7, h, k2 + (m + z));
    let p8 = p7 + h.len();
    lemma_split_concat(s, p8, k2, m + z);
    let p9 = p8 + k2.len();
    lemma_split_concat(s, p9, m, z);
    let p10 = p9 + m.len();
    assert(s[p4] == e[0]) by {
        assert(s.subrange(p4, p4 + e.len())[0] == e[0]);
    };
    assert(s[p6] == g[0]) by {
        assert(s.subrange(p6, p6 + g.len())[0] == g[0]);
    };
    assert(s[p10] == z[0]) by {
        assert(s.subrange(p10, p10 + z.len())[0] == z[0]);
    };
    lemma_p_str_of_enc(s, p1, t.name);
    lemma_p_num_of_enc(s, p3, t.id);
    lemma_p_num_of_enc(s, p5, t.id_comp);
    lemma_p_ids_of_enc(s, p7, t.items);
    lemma_p_ids_of_enc(s, p9, t.tags);
    assert(p_cont(s, i) == Some(
        (
            ContainerV {
                name: t.name,
                id: t.id,
                id_comp: t.id_comp,
                items: t.items,
                tags: t.tags,
            },
            p10 + z.len(),
        ),
    ));
    assert(ContainerV {
        name: t.name,
        id: t.id,
        id_comp: t.id_comp,
        items: t.items,
        tags: t.tags,
    } =~= t);
}



// ---------------------------------------------------------------------------
// Entity lists.
// ---------------------------------------------------------------------------

pub open spec fn enc_tags_rest(l: Seq<TagV>) -> Seq<char>
    decreases l.len(),
{
    if l.len() == 0 {
        Seq::empty()
    } else {
        seq![','] + enc_tag(l[0]) + enc_tags_rest(l.drop_first())
    }
}

/// The encoding of a tag list.
pub open spec fn enc_tags(l: Seq<TagV>) -> Seq<char> {
    if l.len() == 0 {
        seq!['[', ']']
    } else {
        seq!['['] + enc_tag(l[0]) + enc_tags_rest(l.drop_first()) + seq![']']
    }
}

pub open spec fn p_tags_rest(s: Seq<char>, i: int, acc: Seq<TagV>) -> Option<(Seq<TagV>, int)>
    decreases s.len() - i,
{
    if i < 0 || i >= s.len() {
        None
    } else if s[i] == ']' {
        Some((acc, i + 1))
    } else if s[i] == ',' {
        match p_tag(s, i + 1) {
            None => None,
            Some((t, j)) => {
                if i + 1 < j && j <= s.len() {
                    p_tags_rest(s, j, acc.push(t))
                } else {
                    None
                }
            },
        }
    } else {
        None
    }
}

/// A tag list at `i`.
pub open spec fn p_tags(s: Seq<char>, i: int) -> Option<(Seq<TagV>, int)> {
    if !(0 <= i < s.len()) || s[i] != '[' {
        None
    } else if i + 1 < s.len() && s[i + 1] == ']' {
        Some((Seq::empty(), i + 2))
    } else {
        match p_tag(s, i + 1) {
            None => None,
            Some((t, j)) => {
                if i + 1 < j && j <= s.len() {
                    p_tags_rest(s, j, seq![t])
                } else {
                    None
                }
            },
        }
    }
}

proof fn lemma_p_tags_rest_of_enc(s: Seq<char>, i: int, l: Seq<TagV>, acc: Seq<TagV>)
    requires
        0 <= i,
        i + enc_tags_rest(l).len() < s.len(),
        s.subrange(i, i + enc_tags_rest(l).len()) == enc_tags_rest(l),
        s[i + enc_tags_rest(l).len()] == ']',
    ensures
        p_tags_rest(s, i, acc) == Some((acc + l, i + enc_tags_rest(l).len() + 1)),
    decreases l.len(),
{
    let w = enc_tags_rest(l);
    let e = i + w.len();
    if l.len() == 0 {
        assert(s[i] == ']');
        assert(acc + l =~= acc);
    } else {
        let d = enc_tag(l[0]);
        let rest = enc_tags_rest(l.drop_first());
        assert(w =~= seq![','] + (d + rest));
        lemma_split_concat(s, i, seq![','], d + rest);
        assert(s[i] == ',') by {
            assert(s.subrange(i, i + 1)[0] == seq![','][0]);
        };
        lemma_split_concat(s, i + 1, d, rest);
        let j = i + 1 + d.len();
        lemma_p_tag_of_enc(s, i + 1, l[0]);
        lemma_p_tags_rest_of_enc(s, j, l.drop_first(), acc.push(l[0]));
        assert(acc.push(l[0]) + l.drop_first() =~= acc + l);
    }
}

proof fn lemma_p_tags_of_enc(s: Seq<char>, i: int, l: Seq<TagV>)
    requires
        0 <= i,
        i + enc_tags(l).len() <= s.len(),
        s.subrange(i, i + enc_tags(l).len()) == enc_tags(l),
    ensures
        p_tags(s, i) == Some((l, i + enc_tags(l).len())),
{
    let w = enc_tags(l);
    let e = i + w.len();
    assert(s[i] == w[0]) by {
        assert(s.subrange(i, e)[0] == w[0]);
    };
    if l.len() == 0 {
        assert(s[i] == '[');
        assert(s[i + 1] == w[1]) by {
            assert(s.subrange(i, e)[1] == w[1]);
        };
        assert(s[i + 1] == ']');
    } else {
        let d = enc_tag(l[0]);
        let rest = enc_tags_rest(l.drop_first());
        assert(w =~= seq!['['] + (d + (rest + seq![']'])));
        lemma_split_concat(s, i, seq!['['], d + (rest + seq![']']));
        lemma_split_concat(s, i + 1, d, rest + seq![']']);
        let j = i + 1 + d.len();
        lemma_split_concat(s, j, rest, seq![']']);
        assert(s[j + rest.len()] == ']') by {
            assert(s.subrange(j + rest.len(), e)[0] == seq![']'][0]);
        };
        lemma_p_tag_of_enc(s, i + 1, l[0]);
        assert(s[i + 1] == d[0]) by {
            assert(s.subrange(i + 1, j)[0] == d[0]);
        };
        assert(s[i + 1] != ']');
        lemma_p_tags_rest_of_enc(s, j, l.drop_first(), seq![l[0]]);
        assert(seq![l[0]] + l.drop_first() =~= l);
    }
}

pub open spec fn enc_items_rest(l: Seq<ItemV>) -> Seq<char>
    decreases l.len(),
{
    if l.len() == 0 {
        Seq::empty()
    } else {
        seq![','] + enc_item(l[0]) + enc_items_rest(l.drop_first())
    }
}

/// The encoding of a item list.
pub open spec fn enc_items(l: Seq<ItemV>) -> Seq<char> {
    if l.len() == 0 {
        seq!['[', ']']
    } else {
        seq!['['] + enc_item(l[0]) + enc_items_rest(l.drop_first()) + seq![']']
    }
}

pub open spec fn p_items_rest(s: Seq<char>, i: int, acc: Seq<ItemV>) -> Option<(Seq<ItemV>, int)>
    decreases s.len() - i,
{
    if i < 0 || i >= s.len() {
        None
    } else if s[i] == ']' {
        Some((acc, i + 1))
    } else if s[i] == ',' {
        match p_item(s, i + 1) {
            None => None,
            Some((t, j)) => {
                if i + 1 < j && j <= s.len() {
                    p_items_rest(s, j, acc.push(t))
                } else {
                    None
                }
            },
        }
    } else {
        None
    }
}

/// A item list at `i`.
pub open spec fn p_items(s: Seq<char>, i: int) -> Option<(Seq<ItemV>, int)> {
    if !(0 <= i < s.len()) || s[i] != '[' {
        None
    } else if i + 1 < s.len() && s[i + 1] == ']' {
        Some((Seq::empty(), i + 2))
    } else {
        match p_item(s, i + 1) {
            None => None,
            Some((t, j)) => {
                if i + 1 < j && j <= s.len() {
                    p_items_rest(s, j, seq![t])
                } else {
                    None
                }
            },
        }
    }
}

proof fn lemma_p_items_rest_of_enc(s: Seq<char>, i: int, l: Seq<ItemV>, acc: Seq<ItemV>)
    requires
        0 <= i,
        i + enc_items_rest(l).len() < s.len(),
        s.subrange(i, i + enc_items_rest(l).len()) == enc_items_rest(l),
        s[i + enc_items_rest(l).len()] == ']',
    ensures
        p_items_rest(s, i, acc) == Some((acc + l, i + enc_items_rest(l).len() + 1)),
    decreases l.len(),
{
    let w = enc_items_rest(l);
    let e = i + w.len();
    if l.len() == 0 {
        assert(s[i] == ']');
        assert(acc + l =~= acc);
    } else {
        let d = enc_item(l[0]);
        let rest = enc_items_rest(l.drop_first());
        assert(w =~= seq![','] + (d + rest));
        lemma_split_concat(s, i, seq![','], d + rest);
        assert(s[i] == ',') by {
            assert(s.subrange(i, i + 1)[0] == seq![','][0]);
        };
        lemma_split_concat(s, i + 1, d, rest);
        let j = i + 1 + d.len();
        lemma_p_item_of_enc(s, i + 1, l[0]);
        lemma_p_items_rest_of_enc(s, j, l.drop_first(), acc.push(l[0]));
        assert(acc.push(l[0]) + l.drop_first() =~= acc + l);
    }
}

proof fn lemma_p_items_of_enc(s: Seq<char>, i: int, l: Seq<ItemV>)
    requires
        0 <= i,
        i + enc_items(l).len() <= s.len(),
        s.subrange(i, i + enc_items(l).len()) == enc_items(l),
    ensures
        p_items(s, i) == Some((l, i + enc_items(l).len())),
{
    let w = enc_items(l);
    let e = i + w.len();
    assert(s[i] == w[0]) by {
        assert(s.subrange(i, e)[0] == w[0]);
    };
    if l.len() == 0 {
        assert(s[i] == '[');
        assert(s[i + 1] == w[1]) by {
            assert(s.subrange(i, e)[1] == w[1]);
        };
        assert(s[i + 1] == ']');
    } else {
        let d = enc_item(l[0]);
        let rest = enc_items_rest(l.drop_first());
        assert(w =~= seq!['['] + (d + (rest + seq![']'])));
        lemma_split_concat(s, i, seq!['['], d + (rest + seq![']']));
        lemma_split_concat(s, i + 1, d, rest + seq![']']);
        let j = i + 1 + d.len();
        lemma_split_concat(s, j, rest, seq![']']);
        assert(s[j + rest.len()] == ']') by {
            assert(s.subrange(j + rest.len(), e)[0] == seq![']'][0]);
        };
        lemma_p_item_of_enc(s, i + 1, l[0]);
        assert(s[i + 1] == d[0]) by {
            assert(s.subrange(i + 1, j)[0] == d[0]);
        };
        assert(s[i + 1] != ']');
        lemma_p_items_rest_of_enc(s, j, l.drop_first(), seq![l[0]]);
        assert(seq![l[0]] + l.drop_first() =~= l);
    }
}

pub open spec fn enc_comps_rest(l: Seq<CompartmentV>) -> Seq<char>
    decreases l.len(),
{
    if l.len() == 0 {
        Seq::empty()
    } else {
        seq![','] + enc_comp(l[0]) + enc_comps_rest(l.drop_first())
    }
}

/// The encoding of a compartment list.
pub open spec fn enc_comps(l: Seq<CompartmentV>) -> Seq<char> {
    if l.len() == 0 {
        seq!['[', ']']
    } else {
        seq!['['] + enc_comp(l[0]) + enc_comps_rest(l.drop_first()) + seq![']']
    }
}

pub open spec fn p_comps_rest(s: Seq<char>, i: int, acc: Seq<CompartmentV>) -> Option<(Seq<CompartmentV>, int)>
    decreases s.len() - i,
{
    if i < 0 || i >= s.len() {
        None
    } else if s[i] == ']' {
        Some((acc, i + 1))
    } else if s[i] == ',' {
        match p_comp(s, i + 1) {
            None => None,
            Some((t, j)) => {
                if i + 1 < j && j <= s.len() {
                    p_comps_rest(s, j, acc.push(t))
                } else {
                    None
                }
            },
        }
    } else {
        None
    }
}

/// A compartment list at `i`.
pub open spec fn p_comps(s: Seq<char>, i: int) -> Option<(Seq<CompartmentV>, int)> {
    if !(0 <= i < s.len()) || s[i] != '[' {
        None
    } else if i + 1 < s.len() && s[i + 1] == ']' {
        Some((Seq::empty(), i + 2))
    } else {
        match p_comp(s, i + 1) {
            None => None,
            Some((t, j)) => {
                if i + 1 < j && j <= s.len() {
                    p_comps_rest(s, j, seq![t])
                } else {
                    None
                }
            },
        }
    }
}

proof fn lemma_p_comps_rest_of_enc(s: Seq<char>, i: int, l: Seq<CompartmentV>, acc: Seq<CompartmentV>)
    requires
        0 <= i,
        i + enc_comps_rest(l).len() < s.len(),
        s.subrange(i, i + enc_comps_rest(l).len()) == enc_comps_rest(l),
        s[i + enc_comps_rest(l).len()] == ']',
    ensures
        p_comps_rest(s, i, acc) == Some((acc + l, i + enc_comps_rest(l).len() + 1)),
    decreases l.len(),
{
    let w = enc_comps_rest(l);
    let e = i + w.len();
    if l.len() == 0 {
        assert(s[i] == ']');
        assert(acc + l =~= acc);
    } else {
        let d = enc_comp(l[0]);
        let rest = enc_comps_rest(l.drop_first());
        assert(w =~= seq![','] + (d + rest));
        lemma_split_concat(s, i, seq![','], d + rest);
        assert(s[i] == ',') by {
            assert(s.subrange(i, i + 1)[0] == seq![','][0]);
        };
        lemma_split_concat(s, i + 1, d, rest);
        let j = i + 1 + d.len();
        lemma_p_comp_of_enc(s, i + 1, l[0]);
        lemma_p_comps_rest_of_enc(s, j, l.drop_first(), acc.push(l[0]));
        assert(acc.push(l[0]) + l.drop_first() =~= acc + l);
    }
}

#[verifier::rlimit(100)]
proof fn lemma_p_comps_of_enc(s: Seq<char>, i: int, l: Seq<CompartmentV>)
    requires
        0 <= i,
        i + enc_comps(l).len() <= s.len(),
        s.subrange(i, i + enc_comps(l).len()) == enc_comps(l),
    ensures
        p_comps(s, i) == Some((l, i + enc_comps(l).len())),
{
    let w = enc_comps(l);
    let e = i + w.len();
    assert(s[i] == w[0]) by {
        assert(s.subrange(i, e)[0] == w[0]);
    };
    if l.len() == 0 {
        assert(s[i] == '[');
        assert(s[i + 1] == w[1]) by {
            assert(s.subrange(i, e)[1] == w[1]);
        };
        assert(s[i + 1] == ']');
    } else {
        let d = enc_comp(l[0]);
        let rest = enc_comps_rest(l.drop_first());
        assert(w =~= seq!['['] + (d + (rest + seq![']'])));
        lemma_split_concat(s, i, seq!['['], d + (rest + seq![']']));
        lemma_split_concat(s, i + 1, d, rest + seq![']']);
        let j = i + 1 + d.len();
        lemma_split_concat(s, j, rest, seq![']']);
        assert(s[j + rest.len()] == ']') by {
            assert(s.subrange(j + rest.len(), e)[0] == seq![']'][0]);
        };
        lemma_p_comp_of_enc(s, i + 1, l[0]);
        assert(s[i + 1] == d[0]) by {
            assert(s.subrange(i + 1, j)[0] == d[0]);
        };
        assert(s[i + 1] != ']');
        lemma_p_comps_rest_of_enc(s, j, l.drop_first(), seq![l[0]]);
        assert(seq![l[0]] + l.drop_first() =~= l);
    }
}

pub open spec fn enc_conts_rest(l: Seq<ContainerV>) -> Seq<char>
    decreases l.len(),
{
    if l.len() == 0 {
        Seq::empty()
    } else {
        seq![','] + enc_cont(l[0]) + enc_conts_rest(l.drop_first())
    }
}

/// The encoding of a container list.
pub open spec fn enc_conts(l: Seq<ContainerV>) -> Seq<char> {
    if l.len() == 0 {
        seq!['[', ']']
    } else {
        seq!['['] + enc_cont(l[0]) + enc_conts_rest(l.drop_first()) + seq![']']
    }
}

pub open spec fn p_conts_rest(s: Seq<char>, i: int, acc: Seq<ContainerV>) -> Option<(Seq<ContainerV>, int)>
    decreases s.len() - i,
{
    if i < 0 || i >= s.len() {
        None
    } else if s[i] == ']' {
        Some((acc, i + 1))
    } else if s[i] == ',' {
        match p_cont(s, i + 1) {
            None => None,
            Some((t, j)) => {
                if i + 1 < j && j <= s.len() {
                    p_conts_rest(s, j, acc.push(t))
                } else {
                    None
                }
            },
        }
    } else {
        None
    }
}

/// A container list at `i`.
pub open spec fn p_conts(s: Seq<char>, i: int) -> Option<(Seq<ContainerV>, int)> {
    if !(0 <= i < s.len()) || s[i] != '[' {
        None
    } else if i + 1 < s.len() && s[i + 1] == ']' {
        Some((Seq::empty(), i + 2))
    } else {
        match p_cont(s, i + 1) {
            None => None,
            Some((t, j)) => {
                if i + 1 < j && j <= s.len() {
                    p_conts_rest(s, j, seq![t])
                } else {
                    None
                }
            },
        }
    }
}

#[verifier::rlimit(100)]
proof fn lemma_p_conts_rest_of_enc(s: Seq<char>, i: int, l: Seq<ContainerV>, acc: Seq<ContainerV>)
    requires
        0 <= i,
        i + enc_conts_rest(l).len() < s.len(),
        s.subrange(i, i + enc_conts_rest(l).len()) == enc_conts_rest(l),
        s[i + enc_conts_rest(l).len()] == ']',
    ensures
        p_conts_rest(s, i, acc) == Some((acc + l, i + enc_conts_rest(l).len() + 1)),
    decreases l.len(),
{
    let w = enc_conts_rest(l);
    let e = i + w.len();
    if l.len() == 0 {
        assert(s[i] == ']');
        assert(acc + l =~= acc);
    } else {
        let d = enc_cont(l[0]);
        let rest = enc_conts_rest(l.drop_first());
        assert(w =~= seq![','] + (d + rest));
        lemma_split_concat(s, i, seq![','], d + rest);
        assert(s[i] == ',') by {
            assert(s.subrange(i, i + 1)[0] == seq![','][0]);
        };
        lemma_split_concat(s, i + 1, d, rest);
        let j = i + 1 + d.len();
        lemma_p_cont_of_enc(s, i + 1, l[0]);
        lemma_p_conts_rest_of_enc(s, j, l.drop_first(), acc.push(l[0]));
        assert(acc.push(l[0]) + l.drop_first() =~= acc + l);
    }
}

#[verifier::rlimit(100)]
proof fn lemma_p_conts_of_enc(s: Seq<char>, i: int, l: Seq<ContainerV>)
    requires
        0 <= i,
        i + enc_conts(l).len() <= s.len(),
        s.subrange(i, i + enc_conts(l).len()) == enc_conts(l),
    ensures
        p_conts(s, i) == Some((l, i + enc_conts(l).len())),
{
    let w = enc_conts(l);
    let e = i + w.len();
    assert(s[i] == w[0]) by {
        assert(s.subrange(i, e)[0] == w[0]);
    };
    if l.len() == 0 {
        assert(s[i] == '[');
        assert(s[i + 1] == w[1]) by {
            assert(s.subrange(i, e)[1] == w[1]);
        };
        assert(s[i + 1] == ']');
    } else {
        let d = enc_cont(l[0]);
        let rest = enc_conts_rest(l.drop_first());
        assert(w =~= seq!['['] + (d + (rest + seq![']'])));
        lemma_split_concat(s, i, seq!['['], d + (rest + seq![']']));
        lemma_split_concat(s, i + 1, d, rest + seq![']']);
        let j = i + 1 + d.len();
        lemma_split_concat(s, j, rest, seq![']']);
        assert(s[j + rest.len()] == ']') by {
            assert(s.subrange(j + rest.len(), e)[0] == seq![']'][0]);
        };
        lemma_p_cont_of_enc(s, i + 1, l[0]);
        assert(s[i + 1] == d[0]) by {
            assert(s.subrange(i + 1, j)[0] == d[0]);
        };
        assert(s[i + 1] != ']');
        lemma_p_conts_rest_of_enc(s, j, l.drop_first(), seq![l[0]]);
        assert(seq![l[0]] + l.drop_first() =~= l);
    }
}



// ---------------------------------------------------------------------------
// The whole snapshot.
// ---------------------------------------------------------------------------
/// The full snapshot encoding of the store: the four entity lists, then the
/// four id counters, as one object.
pub open spec fn enc_counters(v: InventoryV) -> Seq<char> {
    lit_cnt_compartment() + dec_of(v.cnt_compartment as nat) + lit_cnt_container() + dec_of(
        v.cnt_container as nat,
    ) + lit_cnt_item() + dec_of(v.cnt_item as nat) + lit_cnt_tag() + dec_of(v.cnt_tag as nat)
        + lit_close()
}

pub open spec fn enc_inventory(v: InventoryV) -> Seq<char> {
    lit_head() + enc_comps(v.compartments) + lit_containers() + enc_conts(v.containers)
        + lit_tags() + enc_tags(v.tags) + lit_items() + enc_items(v.items) + enc_counters(v)
}

/// A whole store object at `i`.
pub open spec fn p_inv(s: Seq<char>, i: int) -> Option<(InventoryV, int)> {
    if !match_lit(s, i, lit_head()) {
        None
    } else {
        match p_comps(s, i + lit_head().len()) {
            None => None,
            Some((compartments, p1)) => {
                if !match_lit(s, p1, lit_containers()) {
                    None
                } else {
                    match p_conts(s, p1 + lit_containers().len()) {
                        None => None,
                        Some((containers, p2)) => {
                            if !match_lit(s, p2, lit_tags()) {
                                None
                            } else {
                                match p_tags(s, p2 + lit_tags().len()) {
                                    None => None,
                                    Some((tags, p3)) => {
                                        if !match_lit(s, p3, lit_items()) {
                                            None
                                        } else {
                                            match p_items(s, p3 + lit_items().len()) {
                                                None => None,
                                                Some((items, p4)) => p_inv_counters(
                                                    s,
                                                    p4,
                                                    compartments,
                                                    containers,
                                                    tags,
                                                    items,
                                                ),
                                            }
                                        }
                                    },
                                }
                            }
                        },
                    }
                }
            },
        }
    }
}

/// The trailing counters of a store object, from the end of the item list.
pub open spec fn p_inv_counters(
    s: Seq<char>,
    i: int,
    compartments: Seq<CompartmentV>,
    containers: Seq<ContainerV>,
    tags: Seq<TagV>,
    items: Seq<ItemV>,
) -> Option<(InventoryV, int)> {
    if !match_lit(s, i, lit_cnt_compartment()) {
        None
    } else {
        match p_num(s, i + lit_cnt_compartment().len()) {
            None => None,
            Some((cnt_compartment, p1)) => {
                if !match_lit(s, p1, lit_cnt_container()) {
                    None
                } else {
                    match p_num(s, p1 + lit_cnt_container().len()) {
                        None => None,
                        Some((cnt_container, p2)) => {
                            if !match_lit(s, p2, lit_cnt_item()) {
                                None
                            } else {
                                match p_num(s, p2 + lit_cnt_item().len()) {
                                    None => None,
                                    Some((cnt_item, p3)) => {
                                        if !match_lit(s, p3, lit_cnt_tag()) {
                                            None
                                        } else {
                                            match p_num(s, p3 + lit_cnt_tag().len()) {
                                                None => None,
                                                Some((cnt_tag, p4)) => {
                                                    if match_lit(s, p4, lit_close()) {
                                                        Some(
                                                            (
                                                                InventoryV {
                                                                    compartments,
                                                                    containers,
                                                                    tags,
                                                                    items,
                                                                    cnt_compartment,
                                                                    cnt_container,
                                                                    cnt_item,
                                                                    cnt_tag,
                                                                },
                                                                p4 + lit_close().len(),
                                                            ),
                                                        )
                                                    } else {
                                                        None
                                                    }
                                                },
                                            }
                                        }
                                    },
                                }
                            }
                        },
                    }
                }
            },
        }
    }
}

/// What a whole snapshot text means: one store object spanning the entire
/// text, or nothing.
pub open spec fn parse_inventory_spec(s: Seq<char>) -> Option<InventoryV> {
    match p_inv(s, 0) {
        None => None,
        Some((v, j)) => if j == s.len() {
            Some(v)
        } else {
            None
        },
    }
}

#[verifier::rlimit(100)]
proof fn lemma_p_inv_counters_of_enc(s: Seq<char>, i: int, v: InventoryV)
    requires
        0 <= i,
        i + enc_counters(v).len() <= s.len(),
        s.subrange(i, i + enc_counters(v).len()) == enc_counters(v),
    ensures
        p_inv_counters(s, i, v.compartments, v.containers, v.tags, v.items) == Some(
            (v, i + enc_counters(v).len()),
        ),
{
    lemma_lits();
    let a9 = lit_cnt_compartment();
    let a10 = dec_of(v.cnt_compartment as nat);
    let a11 = lit_cnt_container();
    let a12 = dec_of(v.cnt_container as nat);
    let a13 = lit_cnt_item();
    let a14 = dec_of(v.cnt_item as nat);
    let a15 = lit_cnt_tag();
    let a16 = dec_of(v.cnt_tag as nat);
    let a17 = lit_close();
    let w = enc_counters(v);
    assert(w =~= a9 + (a10 + (a11 + (a12 + (a13 + (a14 + (a15 + (a16 + a17))))))));
    lemma_split_concat(s, i, a9, a10 + (a11 + (a12 + (a13 + (a14 + (a15 + (a16 + a17)))))));
    let p9 = i + a9.len();
    lemma_split_concat(s, p9, a10, a11 + (a12 + (a13 + (a14 + (a15 + (a16 + a17))))));
    let p10 = p9 + a10.len();
    lemma_split_concat(s, p10, a11, a12 + (a13 + (a14 + (a15 + (a16 + a17)))));
    let p11 = p10 + a11.len();
    lemma_split_concat(s, p11, a12, a13 + (a14 + (a15 + (a16 + a17))));
    let p12 = p11 + a12.len();
    lemma_split_concat(s, p12, a13, a14 + (a15 + (a16 + a17)));
    let p13 = p12 + a13.len();
    lemma_split_concat(s, p13, a14, a15 + (a16 + a17));
    let p14 = p13 + a14.len();
    lemma_split_concat(s, p14, a15, a16 + a17);
    let p15 = p14 + a15.len();
    lemma_split_concat(s, p15, a16, a17);
    let p16 = p15 + a16.len();
    assert(s[p10] == a11[0]) by {
        assert(s.subrange(p10, p10 + a11.len())[0] == a11[0]);
    };
    assert(s[p12] == a13[0]) by {
        assert(s.subrange(p12, p12 + a13.len())[0] == a13[0]);
    };
    assert(s[p14] == a15[0]) by {
        assert(s.subrange(p14, p14 + a15.len())[0] == a15[0]);
    };
    assert(s[p16] == a17[0]) by {
        assert(s.subrange(p16, p16 + a17.len())[0] == a17[0]);
    };
    lemma_p_num_of_enc(s, p9, v.cnt_compartment);
    lemma_p_num_of_enc(s, p11, v.cnt_container);
    lemma_p_num_of_enc(s, p13, v.cnt_item);
    lemma_p_num_of_enc(s, p15, v.cnt_tag);
    assert(InventoryV {
        compartments: v.compartments,
        containers: v.containers,
        tags: v.tags,
        items: v.items,
        cnt_compartment: v.cnt_compartment,
        cnt_container: v.cnt_container,
        cnt_item: v.cnt_item,
        cnt_tag: v.cnt_tag,
    } =~= v);
}

pub open spec fn q1(i: int, v: InventoryV) -> int {
    i + lit_head().len()
}

pub open spec fn q2(i: int, v: InventoryV) -> int {
    q1(i, v) + enc_comps(v.compartments).len()
}

pub open spec fn q3(i: int, v: InventoryV) -> int {
    q2(i, v) + lit_containers().len()
}

pub open spec fn q4(i: int, v: InventoryV) -> int {
    q3(i, v) + enc_conts(v.containers).len()
}

pub open spec fn q5(i: int, v: InventoryV) -> int {
    q4(i, v) + lit_tags().len()
}

pub open spec fn q6(i: int, v: InventoryV) -> int {
    q5(i, v) + enc_tags(v.tags).len()
}

pub open spec fn q7(i: int, v: InventoryV) -> int {
    q6(i, v) + lit_items().len()
}

pub open spec fn q8(i: int, v: InventoryV) -> int {
    q7(i, v) + enc_items(v.items).len()
}

#[verifier::rlimit(100)]
proof fn lemma_inv_pieces(s: Seq<char>, i: int, v: InventoryV)
    requires
        0 <= i,
        i + enc_inventory(v).len() <= s.len(),
        s.subrange(i, i + enc_inventory(v).len()) == enc_inventory(v),
    ensures
        i + enc_inventory(v).len() == q8(i, v) + enc_counters(v).len(),
        s.subrange(i, q1(i, v)) == lit_head(),
        s.subrange(q1(i, v), q2(i, v)) == enc_comps(v.compartments),
        s.subrange(q2(i, v), q3(i, v)) == lit_containers(),
        s.subrange(q3(i, v), q4(i, v)) == enc_conts(v.containers),
        s.subrange(q4(i, v), q5(i, v)) == lit_tags(),
        s.subrange(q5(i, v), q6(i, v)) == enc_tags(v.tags),
        s.subrange(q6(i, v), q7(i, v)) == lit_items(),
        s.subrange(q7(i, v), q8(i, v)) == enc_items(v.items),
        s.subrange(q8(i, v), q8(i, v) + enc_counters(v).len()) == enc_counters(v),
{
    let a1 = lit_head();
    let a2 = enc_comps(v.compartments);
    let a3 = lit_containers();
    let a4 = enc_conts(v.containers);
    let a5 = lit_tags();
    let a6 = enc_tags(v.tags);
    let a7 = lit_items();
    let a8 = enc_items(v.items);
    let a9 = enc_counters(v);
    let w = enc_inventory(v);
    assert(w =~= a1 + (a2 + (a3 + (a4 + (a5 + (a6 + (a7 + (a8 + a9))))))));
    lemma_split_concat(s, i, a1, a2 + (a3 + (a4 + (a5 + (a6 + (a7 + (a8 + a9)))))));
    lemma_split_concat(s, q1(i, v), a2, a3 + (a4 + (a5 + (a6 + (a7 + (a8 + a9))))));
    lemma_split_concat(s, q2(i, v), a3, a4 + (a5 + (a6 + (a7 + (a8 + a9)))));
    lemma_split_concat(s, q3(i, v), a4, a5 + (a6 + (a7 + (a8 + a9))));
    lemma_split_concat(s, q4(i, v), a5, a6 + (a7 + (a8 + a9)));
    lemma_split_concat(s, q5(i, v), a6, a7 + (a8 + a9));
    lemma_split_concat(s, q6(i, v), a7, a8 + a9);
    lemma_split_concat(s, q7(i, v), a8, a9);
}

#[verifier::rlimit(100)]
proof fn lemma_p_inv_of_enc(s: Seq<char>, i: int, v: InventoryV)
    requires
        0 <= i,
        i + enc_inventory(v).len() <= s.len(),
        s.subrange(i, i + enc_inventory(v).len()) == enc_inventory(v),
    ensures
        p_inv(s, i) == Some((v, i + enc_inventory(v).len())),
{
    lemma_inv_pieces(s, i, v);
    lemma_p_comps_of_enc(s, q1(i, v), v.compartments);
    lemma_p_conts_of_enc(s, q3(i, v), v.containers);
    lemma_p_tags_of_enc(s, q5(i, v), v.tags);
    lemma_p_items_of_enc(s, q7(i, v), v.items);
    lemma_p_inv_counters_of_enc(s, q8(i, v), v);
}

/// Law: a snapshot written for any store reads back as exactly that store,
/// entities and counter values alike.
pub proof fn lemma_snapshot_round_trip(v: InventoryV)
    ensures
        parse_inventory_spec(enc_inventory(v)) == Some(v),
{
    let s = enc_inventory(v);
    assert(s.subrange(0, s.len() as int) =~= s);
    lemma_p_inv_of_enc(s, 0, v);
}



// ---------------------------------------------------------------------------
// Writing a snapshot.
// ---------------------------------------------------------------------------
proof fn lemma_esc_snoc(t: Seq<char>, c: char)
    ensures
        esc(t.push(c)) == esc(t) + esc_char(c),
    decreases t.len(),
{
    if t.len() == 0 {
        assert(t.push(c).drop_first() =~= Seq::<char>::empty());
        assert(t.push(c)[0] == c);
        assert(esc(Seq::<char>::empty()) == Seq::<char>::empty());
        assert(esc(t.push(c)) =~= esc_char(c) + Seq::<char>::empty());
        assert(esc_char(c) + Seq::<char>::empty() =~= esc_char(c));
        assert(esc(t) + esc_char(c) =~= esc_char(c));
    } else {
        assert(t.push(c).drop_first() =~= t.drop_first().push(c));
        lemma_esc_snoc(t.drop_first(), c);
        assert(esc(t.push(c)) =~= esc(t) + esc_char(c));
    }
}

fn push_json_string(out: &mut String, s: &str)
    ensures
        final(out)@ == old(out)@ + enc_str(s@),
{
    let chars = str_chars(s);
    push_char(out, '"');
    proof {
        assert(esc(s@.take(0)) =~= Seq::<char>::empty());
        assert(out@ =~= old(out)@ + seq!['"'] + esc(s@.take(0)));
    }
    let mut k: usize = 0;
    while k < chars.len()
        invariant
            chars@ == s@,
            k <= chars.len(),
            out@ == old(out)@ + seq!['"'] + esc(s@.take(k as int)),
        decreases chars.len() - k,
    {
        let c = chars[k];
        if c == '"' || c == '\\' {
            push_char(out, '\\');
            push_char(out, c);
        } else {
            push_char(out, c);
        }
        proof {
            lemma_esc_snoc(s@.take(k as int), s@[k as int]);
            assert(s@.take(k as int).push(s@[k as int]) =~= s@.take(k as int + 1));
            assert(out@ =~= old(out)@ + seq!['"'] + esc(s@.take(k as int + 1)));
        }
        k = k + 1;
    }
    push_char(out, '"');
    proof {
        assert(s@.take(s@.len() as int) =~= s@);
        assert(out@ =~= old(out)@ + enc_str(s@));
    }
}

fn push_num(out: &mut String, n: u32)
    ensures
        final(out)@ == old(out)@ + dec_of(n as nat),
{
    let d = u32_to_string(n);
    out.append(d.as_str());
}

fn push_ids_rest(out: &mut String, l: &Vec<u32>, k: usize)
    requires
        k <= l@.len(),
    ensures
        final(out)@ == old(out)@ + enc_ids_rest(l@.skip(k as int)),
    decreases l@.len() - k,
{
    if k == l.len() {
        proof {
            assert(l@.skip(k as int) =~= Seq::<u32>::empty());
            assert(out@ + enc_ids_rest(l@.skip(k as int)) =~= out@);
        }
    } else {
        push_char(out, ',');
        push_num(out, l[k]);
        push_ids_rest(out, l, k + 1);
        proof {
            assert(l@.skip(k as int).drop_first() =~= l@.skip(k as int + 1));
            assert(l@.skip(k as int)[0] == l@[k as int]);
            assert(out@ =~= old(out)@ + enc_ids_rest(l@.skip(k as int)));
        }
    }
}

fn push_ids(out: &mut String, l: &Vec<u32>)
    ensures
        final(out)@ == old(out)@ + enc_ids(l@),
{
    push_char(out, '[');
    if l.len() == 0 {
        push_char(out, ']');
        proof {
            assert(out@ =~= old(out)@ + enc_ids(l@));
        }
    } else {
        push_num(out, l[0]);
        push_ids_rest(out, l, 1);
        push_char(out, ']');
        proof {
            assert(l@.skip(1) =~= l@.drop_first());
            assert(out@ =~= old(out)@ + enc_ids(l@));
        }
    }
}

fn push_tag(out: &mut String, t: &Tag)
    ensures
        final(out)@ == old(out)@ + enc_tag(t@),
{
    out.append("{\"name\":");
    push_json_string(out, t.name.as_str());
    out.append(",\"id\":");
    push_num(out, t.id);
    out.append("}");
    proof {
        assert(out@ =~= old(out)@ + enc_tag(t@));
    }
}

fn push_item(out: &mut String, t: &Item)
    ensures
        final(out)@ == old(out)@ + enc_item(t@),
{
    out.append("{\"name\":");
    push_json_string(out, t.name.as_str());
    out.append(",\"id\":");
    push_num(out, t.id);
    out.append(",\"id_cont\":");
    push_num(out, t.id_cont);
    out.append("}");
    proof {
        assert(out@ =~= old(out)@ + enc_item(t@));
    }
}

fn push_comp(out: &mut String, t: &Compartment)
    ensures
        final(out)@ == old(out)@ + enc_comp(t@),
{
    out.append("{\"name\":");
    push_json_string(out, t.name.as_str());
    out.append(",\"id\":");
    push_num(out, t.id);
    out.append(",\"containers\":");
    push_ids(out, &t.containers);
    out.append("}");
    proof {
        assert(out@ =~= old(out)@ + enc_comp(t@));
    }
}

fn push_cont(out: &mut String, t: &Container)
    ensures
        final(out)@ == old(out)@ + enc_cont(t@),
{
    out.append("{\"name\":");
    push_json_string(out, t.name.as_str());
    out.append(",\"id\":");
    push_num(out, t.id);
    out.append(",\"id_comp\":");
    push_num(out, t.id_comp);
    out.append(",\"items\":");
    push_ids(out, &t.items);
    out.append(",\"tags\":");
    push_ids(out, &t.tags);
    out.append("}");
    proof {
        assert(out@ =~= old(out)@ + enc_cont(t@));
    }
}

fn push_tags_rest(out: &mut String, l: &Vec<Tag>, k: usize)
    requires
        k <= l@.len(),
    ensures
        final(out)@ == old(out)@ + enc_tags_rest(
            l@.map_values(|x: Tag| x@).skip(k as int),
        ),
    decreases l@.len() - k,
{
    let ghost ml = l@.map_values(|x: Tag| x@);
    if k == l.len() {
        proof {
            assert(ml.skip(k as int) =~= Seq::<TagV>::empty());
            assert(out@ + enc_tags_rest(ml.skip(k as int)) =~= out@);
        }
    } else {
        push_char(out, ',');
        push_tag(out, &l[k]);
        push_tags_rest(out, l, k + 1);
        proof {
            assert(ml.skip(k as int).drop_first() =~= ml.skip(k as int + 1));
            assert(ml.skip(k as int)[0] == ml[k as int]);
            assert(out@ =~= old(out)@ + enc_tags_rest(ml.skip(k as int)));
        }
    }
}

fn push_tags(out: &mut String, l: &Vec<Tag>)
    ensures
        final(out)@ == old(out)@ + enc_tags(l@.map_values(|x: Tag| x@)),
{
    let ghost ml = l@.map_values(|x: Tag| x@);
    push_char(out, '[');
    if l.len() == 0 {
        push_char(out, ']');
        proof {
            assert(out@ =~= old(out)@ + enc_tags(ml));
        }
    } else {
        push_tag(out, &l[0]);
        push_tags_rest(out, l, 1);
        push_char(out, ']');
        proof {
            assert(ml.skip(1) =~= ml.drop_first());
            assert(ml[0] == l@[0]@);
            assert(out@ =~= old(out)@ + enc_tags(ml));
        }
    }
}

fn push_items_rest(out: &mut String, l: &Vec<Item>, k: usize)
    requires
        k <= l@.len(),
    ensures
        final(out)@ == old(out)@ + enc_items_rest(
            l@.map_values(|x: Item| x@).skip(k as int),
        ),
    decreases l@.len() - k,
{
    let ghost ml = l@.map_values(|x: Item| x@);
    if k == l.len() {
        proof {
            assert(ml.skip(k as int) =~= Seq::<ItemV>::empty());
            assert(out@ + enc_items_rest(ml.skip(k as int)) =~= out@);
        }
    } else {
        push_char(out, ',');
        push_item(out, &l[k]);
        push_items_rest(out, l, k + 1);
        proof {
            assert(ml.skip(k as int).drop_first() =~= ml.skip(k as int + 1));
            assert(ml.skip(k as int)[0] == ml[k as int]);
            assert(out@ =~= old(out)@ + enc_items_rest(ml.skip(k as int)));
        }
    }
}

fn push_items(out: &mut String, l: &Vec<Item>)
    ensures
        final(out)@ == old(out)@ + enc_items(l@.map_values(|x: Item| x@)),
{
    let ghost ml = l@.map_values(|x: Item| x@);
    push_char(out, '[');
    if l.len() == 0 {
        push_char(out, ']');
        proof {
            assert(out@ =~= old(out)@ + enc_items(ml));
        }
    } else {
        push_item(out, &l[0]);
        push_items_rest(out, l, 1);
        push_char(out, ']');
        proof {
            assert(ml.skip(1) =~= ml.drop_first());
            assert(ml[0] == l@[0]@);
            assert(out@ =~= old(out)@ + enc_items(ml));
        }
    }
}

fn push_comps_rest(out: &mut String, l: &Vec<Compartment>, k: usize)
    requires
        k <= l@.len(),
    ensures
        final(out)@ == old(out)@ + enc_comps_rest(
            l@.map_values(|x: Compartment| x@).skip(k as int),
        ),
    decreases l@.len() - k,
{
    let ghost ml = l@.map_values(|x: Compartment| x@);
    if k == l.len() {
        proof {
            assert(ml.skip(k as int) =~= Seq::<CompartmentV>::empty());
            assert(out@ + enc_comps_rest(ml.skip(k as int)) =~= out@);
        }
    } else {
        push_char(out, ',');
        push_comp(out, &l[k]);
        push_comps_rest(out, l, k + 1);
        proof {
            assert(ml.skip(k as int).drop_first() =~= ml.skip(k as int + 1));
            assert(ml.skip(k as int)[0] == ml[k as int]);
            assert(out@ =~= old(out)@ + enc_comps_rest(ml.skip(k as int)));
        }
    }
}

fn push_comps(out: &mut String, l: &Vec<Compartment>)
    ensures
        final(out)@ == old(out)@ + enc_comps(l@.map_values(|x: Compartment| x@)),
{
    let ghost ml = l@.map_values(|x: Compartment| x@);
    push_char(out, '[');
    if l.len() == 0 {
        push_char(out, ']');
        proof {
            assert(out@ =~= old(out)@ + enc_comps(ml));
        }
    } else {
        push_comp(out, &l[0]);
        push_comps_rest(out, l, 1);
        push_char(out, ']');
        proof {
            assert(ml.skip(1) =~= ml.drop_first());
            assert(ml[0] == l@[0]@);
            assert(out@ =~= old(out)@ + enc_comps(ml));
        }
    }
}

fn push_conts_rest(out: &mut String, l: &Vec<Container>, k: usize)
    requires
        k <= l@.len(),
    ensures
        final(out)@ == old(out)@ + enc_conts_rest(
            l@.map_values(|x: Container| x@).skip(k as int),
        ),
    decreases l@.len() - k,
{
    let ghost ml = l@.map_values(|x: Container| x@);
    if k == l.len() {
        proof {
            assert(ml.skip(k as int) =~= Seq::<ContainerV>::empty());
            assert(out@ + enc_conts_rest(ml.skip(k as int)) =~= out@);
        }
    } else {
        push_char(out, ',');
        push_cont(out, &l[k]);
        push_conts_rest(out, l, k + 1);
        proof {
            assert(ml.skip(k as int).drop_first() =~= ml.skip(k as int + 1));
            assert(ml.skip(k as int)[0] == ml[k as int]);
            assert(out@ =~= old(out)@ + enc_conts_rest(ml.skip(k as int)));
        }
    }
}

fn push_conts(out: &mut String, l: &Vec<Container>)
    ensures
        final(out)@ == old(out)@ + enc_conts(l@.map_values(|x: Container| x@)),
{
    let ghost ml = l@.map_values(|x: Container| x@);
    push_char(out, '[');
    if l.len() == 0 {
        push_char(out, ']');
        proof {
            assert(out@ =~= old(out)@ + enc_conts(ml));
        }
    } else {
        push_cont(out, &l[0]);
        push_conts_rest(out, l, 1);
        push_char(out, ']');
        proof {
            assert(ml.skip(1) =~= ml.drop_first());
            assert(ml[0] == l@[0]@);
            assert(out@ =~= old(out)@ + enc_conts(ml));
        }
    }
}

/// Renders the whole store as one snapshot text.
#[verifier::rlimit(100)]
pub fn save_inventory_to_string(inv: &Inventory) -> (r: String)
    ensures
        r@ == enc_inventory(inv@),
{
    let mut out = String::new();
    out.append("{\"compartments\":");
    push_comps(&mut out, &inv.compartments);
    out.append(",\"containers\":");
    push_conts(&mut out, &inv.containers);
    out.append(",\"tags\":");
    push_tags(&mut out, &inv.tags);
    out.append(",\"items\":");
    push_items(&mut out, &inv.items);
    out.append(",\"cnt_compartment\":");
    push_num(&mut out, inv.cnt_compartment);
    out.append(",\"cnt_container\":");
    push_num(&mut out, inv.cnt_container);
    out.append(",\"cnt_item\":");
    push_num(&mut out, inv.cnt_item);
    out.append(",\"cnt_tag\":");
    push_num(&mut out, inv.cnt_tag);
    out.append("}");
    proof {
        assert(out@ =~= enc_inventory(inv@));
    }
    out
}



// ---------------------------------------------------------------------------
// Reading a snapshot.
// ---------------------------------------------------------------------------
proof fn lemma_num_end_digits(s: Seq<char>, i: int)
    requires
        0 <= i <= s.len(),
    ensures
        forall|k: int| i <= k < num_end(s, i) ==> is_dec_digit(#[trigger] s[k]),
    decreases s.len() - i,
{
    lemma_num_end_bounds(s, i);
    if i < s.len() && is_dec_digit(s[i]) {
        lemma_num_end_digits(s, i + 1);
    }
}

fn eat_lit(v: &Vec<char>, i: usize, lit: &str) -> (r: Option<usize>)
    requires
        i <= v@.len(),
    ensures
        match r {
            Some(j) => match_lit(v@, i as int, lit@) && j as int == i + lit@.len() && i <= j
                <= v@.len(),
            None => !match_lit(v@, i as int, lit@),
        },
{
    let lc = str_chars(lit);
    if v.len() - i < lc.len() {
        proof {
            assert(!match_lit(v@, i as int, lit@));
        }
        return None;
    }
    let mut k: usize = 0;
    while k < lc.len()
        invariant
            lc@ == lit@,
            k <= lc@.len(),
            i + lc@.len() <= v@.len(),
            v@.len() <= usize::MAX,
            forall|m: int| 0 <= m < k ==> v@[i + m] == #[trigger] lit@[m],
        decreases lc@.len() - k,
    {
        proof {
            assert(i + k < v@.len());
        }
        if v[i + k] != lc[k] {
            proof {
                assert(v@.subrange(i as int, i + lit@.len())[k as int] != lit@[k as int]);
            }
            return None;
        }
        k = k + 1;
    }
    proof {
        assert(v@.subrange(i as int, i + lit@.len()) =~= lit@);
    }
    Some(i + lc.len())
}

fn parse_num(v: &Vec<char>, i: usize) -> (r: Option<(u32, usize)>)
    requires
        i <= v@.len(),
    ensures
        match r {
            Some(p) => p_num(v@, i as int) == Some((p.0, p.1 as int)) && i < p.1 <= v@.len(),
            None => p_num(v@, i as int) is None,
        },
{
    let mut e: usize = i;
    while e < v.len() && '0' <= v[e] && v[e] <= '9'
        invariant
            i <= e <= v@.len(),
            num_end(v@, i as int) == num_end(v@, e as int),
        decreases v@.len() - e,
    {
        proof {
            assert(num_end(v@, e as int) == num_end(v@, e as int + 1));
        }
        e = e + 1;
    }
    proof {
        assert(num_end(v@, e as int) == e as int);
        lemma_num_end_digits(v@, i as int);
    }
    if e == i {
        return None;
    }
    let mut acc: u32 = 0;
    let mut j: usize = i;
    while j < e
        invariant
            i <= j <= e <= v@.len(),
            num_end(v@, i as int) == e as int,
            forall|k: int| i <= k < e ==> is_dec_digit(#[trigger] v@[k]),
            val_from(v@, i as int, e as int, 0) == val_from(v@, j as int, e as int, acc as nat),
        decreases e - j,
    {
        let c = v[j];
        proof {
            assert(is_dec_digit(v@[j as int]));
        }
        let d: u32 = (c as u32) - ('0' as u32);
        assert(d == digit_val(c));
        if acc > (u32::MAX - d) / 10 {
            proof {
                assert(acc as nat * 10 + digit_val(c) > u32::MAX as nat) by {
                    assert(acc >= (u32::MAX - d) / 10 + 1);
                };
                lemma_val_from_lower_bound(
                    v@,
                    j as int + 1,
                    e as int,
                    acc as nat * 10 + digit_val(c),
                );
            }
            return None;
        }
        proof {
            assert(acc as nat * 10 + digit_val(c) <= u32::MAX as nat) by {
                assert(acc <= (u32::MAX - d) / 10);
            };
        }
        acc = acc * 10 + d;
        j = j + 1;
    }
    Some((acc, e))
}

fn parse_string(v: &Vec<char>, i: usize) -> (r: Option<(String, usize)>)
    requires
        i <= v@.len(),
    ensures
        match r {
            Some(p) => p_str(v@, i as int) == Some((p.0@, p.1 as int)) && i < p.1 <= v@.len(),
            None => p_str(v@, i as int) is None,
        },
{
    if i >= v.len() || v[i] != '"' {
        return None;
    }
    let mut buf = String::new();
    let mut k: usize = i + 1;
    proof {
        let r0 = p_str_body(v@, i as int + 1);
        if r0 is Some {
            assert(Seq::<char>::empty() + r0->Some_0.0 =~= r0->Some_0.0);
        }
    }
    while k < v.len()
        invariant
            i + 1 <= k <= v@.len(),
            i < v@.len(),
            v@[i as int] == '"',
            (match p_str_body(v@, k as int) {
                Some(tj) => p_str_body(v@, i as int + 1) == Some((buf@ + tj.0, tj.1)),
                None => p_str_body(v@, i as int + 1) is None,
            }),
        decreases v@.len() - k,
    {
        let c = v[k];
        if c == '"' {
            proof {
                assert(p_str_body(v@, k as int) == Some((Seq::<char>::empty(), k as int + 1)));
                assert(buf@ + Seq::<char>::empty() =~= buf@);
                lemma_p_str_body_progress(v@, i as int + 1);
                assert(p_str(v@, i as int) == p_str_body(v@, i as int + 1));
                assert(p_str_body(v@, i as int + 1) == Some((buf@, k as int + 1)));
            }
            return Some((buf, k + 1));
        } else if c == '\\' {
            if k + 1 < v.len() && (v[k + 1] == '"' || v[k + 1] == '\\') {
                let ghost obuf = buf@;
                push_char(&mut buf, v[k + 1]);
                proof {
                    let r2 = p_str_body(v@, k as int + 2);
                    if r2 is Some {
                        assert(p_str_body(v@, k as int) == Some(
                            (seq![v@[k as int + 1]] + r2->Some_0.0, r2->Some_0.1),
                        ));
                        assert(obuf + (seq![v@[k as int + 1]] + r2->Some_0.0) =~= buf@
                            + r2->Some_0.0);
                    }
                }
                k = k + 2;
            } else {
                return None;
            }
        } else {
            let ghost obuf = buf@;
            push_char(&mut buf, c);
            proof {
                let r2 = p_str_body(v@, k as int + 1);
                if r2 is Some {
                    assert(p_str_body(v@, k as int) == Some(
                        (seq![v@[k as int]] + r2->Some_0.0, r2->Some_0.1),
                    ));
                    assert(obuf + (seq![v@[k as int]] + r2->Some_0.0) =~= buf@ + r2->Some_0.0);
                }
            }
            k = k + 1;
        }
    }
    None
}

fn parse_ids(v: &Vec<char>, i: usize) -> (r: Option<(Vec<u32>, usize)>)
    requires
        i <= v@.len(),
    ensures
        match r {
            Some(p) => p_ids(v@, i as int) == Some((p.0@, p.1 as int)) && i < p.1 <= v@.len(),
            None => p_ids(v@, i as int) is None,
        },
{
    if i >= v.len() || v[i] != '[' {
        return None;
    }
    if i + 1 < v.len() && v[i + 1] == ']' {
        let out: Vec<u32> = Vec::new();
        proof {
            assert(out@ =~= Seq::<u32>::empty());
        }
        return Some((out, i + 2));
    }
    let pr = match parse_num(v, i + 1) {
        None => {
            return None;
        },
        Some(p) => p,
    };
    let mut out: Vec<u32> = Vec::new();
    out.push(pr.0);
    let mut k: usize = pr.1;
    proof {
        assert(out@ =~= seq![pr.0]);
    }
    while k < v.len()
        invariant
            i < k <= v@.len(),
            p_ids(v@, i as int) == p_ids_rest(v@, k as int, out@),
        decreases v@.len() - k,
    {
        let c = v[k];
        if c == ']' {
            return Some((out, k + 1));
        }
        if c != ',' {
            return None;
        }
        let pr2 = match parse_num(v, k + 1) {
            None => {
                return None;
            },
            Some(p) => p,
        };
        out.push(pr2.0);
        k = pr2.1;
    }
    None
}

fn parse_tag(v: &Vec<char>, i: usize) -> (r: Option<(Tag, usize)>)
    requires
        i <= v@.len(),
    ensures
        match r {
            Some(p) => p_tag(v@, i as int) == Some((p.0@, p.1 as int)) && i < p.1 <= v@.len(),
            None => p_tag(v@, i as int) is None,
        },
{
    let p1 = match eat_lit(v, i, "{\"name\":") {
        None => {
            return None;
        },
        Some(j) => j,
    };
    let sr = match parse_string(v, p1) {
        None => {
            return None;
        },
        Some(p) => p,
    };
    let p3 = match eat_lit(v, sr.1, ",\"id\":") {
        None => {
            return None;
        },
        Some(j) => j,
    };
    let nr = match parse_num(v, p3) {
        None => {
            return None;
        },
        Some(p) => p,
    };
    let p5 = match eat_lit(v, nr.1, "}") {
        None => {
            return None;
        },
        Some(j) => j,
    };
    Some((Tag { name: sr.0, id: nr.0 }, p5))
}

fn parse_tags(v: &Vec<char>, i: usize) -> (r: Option<(Vec<Tag>, usize)>)
    requires
        i <= v@.len(),
    ensures
        match r {
            Some(p) => p_tags(v@, i as int) == Some(
                (p.0@.map_values(|x: Tag| x@), p.1 as int),
            ) && i < p.1 <= v@.len(),
            None => p_tags(v@, i as int) is None,
        },
{
    if i >= v.len() || v[i] != '[' {
        return None;
    }
    if i + 1 < v.len() && v[i + 1] == ']' {
        let out: Vec<Tag> = Vec::new();
        proof {
            assert(out@.map_values(|x: Tag| x@) =~= Seq::<TagV>::empty());
        }
        return Some((out, i + 2));
    }
    let pr = match parse_tag(v, i + 1) {
        None => {
            return None;
        },
        Some(p) => p,
    };
    let mut out: Vec<Tag> = Vec::new();
    out.push(pr.0);
    let mut k: usize = pr.1;
    proof {
        assert(out@.map_values(|x: Tag| x@) =~= seq![out@[0]@]);
    }
    while k < v.len()
        invariant
            i < k <= v@.len(),
            p_tags(v@, i as int) == p_tags_rest(v@, k as int, out@.map_values(|x: Tag| x@)),
        decreases v@.len() - k,
    {
        let c = v[k];
        if c == ']' {
            return Some((out, k + 1));
        }
        if c != ',' {
            return None;
        }
        let pr2 = match parse_tag(v, k + 1) {
            None => {
                return None;
            },
            Some(p) => p,
        };
        let ghost oldm = out@.map_values(|x: Tag| x@);
        out.push(pr2.0);
        proof {
            assert(out@.map_values(|x: Tag| x@) =~= oldm.push(out@.last()@));
        }
        k = pr2.1;
    }
    None
}

fn parse_item(v: &Vec<char>, i: usize) -> (r: Option<(Item, usize)>)
    requires
        i <= v@.len(),
    ensures
        match r {
            Some(p) => p_item(v@, i as int) == Some((p.0@, p.1 as int)) && i < p.1 <= v@.len(),
            None => p_item(v@, i as int) is None,
        },
{
    let p1 = match eat_lit(v, i, "{\"name\":") {
        None => {
            return None;
        },
        Some(j) => j,
    };
    let sr = match parse_string(v, p1) {
        None => {
            return None;
        },
        Some(p) => p,
    };
    let p3 = match eat_lit(v, sr.1, ",\"id\":") {
        None => {
            return None;
        },
        Some(j) => j,
    };
    let nr = match parse_num(v, p3) {
        None => {
            return None;
        },
        Some(p) => p,
    };
    let p5 = match eat_lit(v, nr.1, ",\"id_cont\":") {
        None => {
            return None;
        },
        Some(j) => j,
    };
    let cr = match parse_num(v, p5) {
        None => {
            return None;
        },
        Some(p) => p,
    };
    let p7 = match eat_lit(v, cr.1, "}") {
        None => {
            return None;
        },
        Some(j) => j,
    };
    Some((Item { name: sr.0, id: nr.0, id_cont: cr.0 }, p7))
}

fn parse_items(v: &Vec<char>, i: usize) -> (r: Option<(Vec<Item>, usize)>)
    requires
        i <= v@.len(),
    ensures
        match r {
            Some(p) => p_items(v@, i as int) == Some(
                (p.0@.map_values(|x: Item| x@), p.1 as int),
            ) && i < p.1 <= v@.len(),
            None => p_items(v@, i as int) is None,
        },
{
    if i >= v.len() || v[i] != '[' {
        return None;
    }
    if i + 1 < v.len() && v[i + 1] == ']' {
        let out: Vec<Item> = Vec::new();
        proof {
            assert(out@.map_values(|x: Item| x@) =~= Seq::<ItemV>::empty());
        }
        return Some((out, i + 2));
    }
    let pr = match parse_item(v, i + 1) {
        None => {
            return None;
        },
        Some(p) => p,
    };
    let mut out: Vec<Item> = Vec::new();
    out.push(pr.0);
    let mut k: usize = pr.1;
    proof {
        assert(out@.map_values(|x: Item| x@) =~= seq![out@[0]@]);
    }
    while k < v.len()
        invariant
            i < k <= v@.len(),
            p_items(v@, i as int) == p_items_rest(v@, k as int, out@.map_values(|x: Item| x@)),
        decreases v@.len() - k,
    {
        let c = v[k];
        if c == ']' {
            return Some((out, k + 1));
        }
        if c != ',' {
            return None;
        }
        let pr2 = match parse_item(v, k + 1) {
            None => {
                return None;
            },
            Some(p) => p,
        };
        let ghost oldm = out@.map_values(|x: Item| x@);
        out.push(pr2.0);
        proof {
            assert(out@.map_values(|x: Item| x@) =~= oldm.push(out@.last()@));
        }
        k = pr2.1;
    }
    None
}

fn parse_comp(v: &Vec<char>, i: usize) -> (r: Option<(Compartment, usize)>)
    requires
        i <= v@.len(),
    ensures
        match r {
            Some(p) => p_comp(v@, i as int) == Some((p.0@, p.1 as int)) && i < p.1 <= v@.len(),
            None => p_comp(v@, i as int) is None,
        },
{
    let p1 = match eat_lit(v, i, "{\"name\":") {
        None => {
            return None;
        },
        Some(j) => j,
    };
    let sr = match parse_string(v, p1) {
        None => {
            return None;
        },
        Some(p) => p,
    };
    let p3 = match eat_lit(v, sr.1, ",\"id\":") {
        None => {
            return None;
        },
        Some(j) => j,
    };
    let nr = match parse_num(v, p3) {
        None => {
            return None;
        },
        Some(p) => p,
    };
    let p5 = match eat_lit(v, nr.1, ",\"containers\":") {
        None => {
            return None;
        },
        Some(j) => j,
    };
    let ir = match parse_ids(v, p5) {
        None => {
            return None;
        },
        Some(p) => p,
    };
    let p7 = match eat_lit(v, ir.1, "}") {
        None => {
            return None;
        },
        Some(j) => j,
    };
    Some((Compartment { name: sr.0, id: nr.0, containers: ir.0 }, p7))
}

fn parse_comps(v: &Vec<char>, i: usize) -> (r: Option<(Vec<Compartment>, usize)>)
    requires
        i <= v@.len(),
    ensures
        match r {
            Some(p) => p_comps(v@, i as int) == Some(
                (p.0@.map_values(|x: Compartment| x@), p.1 as int),
            ) && i < p.1 <= v@.len(),
            None => p_comps(v@, i as int) is None,
        },
{
    if i >= v.len() || v[i] != '[' {
        return None;
    }
    if i + 1 < v.len() && v[i + 1] == ']' {
        let out: Vec<Compartment> = Vec::new();
        proof {
            assert(out@.map_values(|x: Compartment| x@) =~= Seq::<CompartmentV>::empty());
        }
        return Some((out, i + 2));
    }
    let pr = match parse_comp(v, i + 1) {
        None => {
            return None;
        },
        Some(p) => p,
    };
    let mut out: Vec<Compartment> = Vec::new();
    out.push(pr.0);
    let mut k: usize = pr.1;
    proof {
        assert(out@.map_values(|x: Compartment| x@) =~= seq![out@[0]@]);
    }
    while k < v.len()
        invariant
            i < k <= v@.len(),
            p_comps(v@, i as int) == p_comps_rest(v@, k as int, out@.map_values(|x: Compartment| x@)),
        decreases v@.len() - k,
    {
        let c = v[k];
        if c == ']' {
            return Some((out, k + 1));
        }
        if c != ',' {
            return None;
        }
        let pr2 = match parse_comp(v, k + 1) {
            None => {
                return None;
            },
            Some(p) => p,
        };
        let ghost oldm = out@.map_values(|x: Compartment| x@);
        out.push(pr2.0);
        proof {
            assert(out@.map_values(|x: Compartment| x@) =~= oldm.push(out@.last()@));
        }
        k = pr2.1;
    }
    None
}

fn parse_cont(v: &Vec<char>, i: usize) -> (r: Option<(Container, usize)>)
    requires
        i <= v@.len(),
    ensures
        match r {
            Some(p) => p_cont(v@, i as int) == Some((p.0@, p.1 as int)) && i < p.1 <= v@.len(),
            None => p_cont(v@, i as int) is None,
        },
{
    let p1 = match eat_lit(v, i, "{\"name\":") {
        None => {
            return None;
        },
        Some(j) => j,
    };
    let sr = match parse_string(v, p1) {
        None => {
            return None;
        },
        Some(p) => p,
    };
    let p3 = match eat_lit(v, sr.1, ",\"id\":") {
        None => {
            return None;
        },
        Some(j) => j,
    };
    let nr = match parse_num(v, p3) {
        None => {
            return None;
        },
        Some(p) => p,
    };
    let p5 = match eat_lit(v, nr.1, ",\"id_comp\":") {
        None => {
            return None;
        },
        Some(j) => j,
    };
    let gr = match parse_num(v, p5) {
        None => {
            return None;
        },
        Some(p) => p,
    };
    let p7 = match eat_lit(v, gr.1, ",\"items\":") {
        None => {
            return None;
        },
        Some(j) => j,
    };
    let ir = match parse_ids(v, p7) {
        None => {
            return None;
        },
        Some(p) => p,
    };
    let p9 = match eat_lit(v, ir.1, ",\"tags\":") {
        None => {
            return None;
        },
        Some(j) => j,
    };
    let tr = match parse_ids(v, p9) {
        None => {
            return None;
        },
        Some(p) => p,
    };
    let p11 = match eat_lit(v, tr.1, "}") {
        None => {
            return None;
        },
        Some(j) => j,
    };
    Some((Container { name: sr.0, id: nr.0, id_comp: gr.0, items: ir.0, tags: tr.0 }, p11))
}

fn parse_conts(v: &Vec<char>, i: usize) -> (r: Option<(Vec<Container>, usize)>)
    requires
        i <= v@.len(),
    ensures
        match r {
            Some(p) => p_conts(v@, i as int) == Some(
                (p.0@.map_values(|x: Container| x@), p.1 as int),
            ) && i < p.1 <= v@.len(),
            None => p_conts(v@, i as int) is None,
        },
{
    if i >= v.len() || v[i] != '[' {
        return None;
    }
    if i + 1 < v.len() && v[i + 1] == ']' {
        let out: Vec<Container> = Vec::new();
        proof {
            assert(out@.map_values(|x: Container| x@) =~= Seq::<ContainerV>::empty());
        }
        return Some((out, i + 2));
    }
    let pr = match parse_cont(v, i + 1) {
        None => {
            return None;
        },
        Some(p) => p,
    };
    let mut out: Vec<Container> = Vec::new();
    out.push(pr.0);
    let mut k: usize = pr.1;
    proof {
        assert(out@.map_values(|x: Container| x@) =~= seq![out@[0]@]);
    }
    while k < v.len()
        invariant
            i < k <= v@.len(),
            p_conts(v@, i as int) == p_conts_rest(v@, k as int, out@.map_values(|x: Container| x@)),
        decreases v@.len() - k,
    {
        let c = v[k];
        if c == ']' {
            return Some((out, k + 1));
        }
        if c != ',' {
            return None;
        }
        let pr2 = match parse_cont(v, k + 1) {
            None => {
                return None;
            },
            Some(p) => p,
        };
        let ghost oldm = out@.map_values(|x: Container| x@);
        out.push(pr2.0);
        proof {
            assert(out@.map_values(|x: Container| x@) =~= oldm.push(out@.last()@));
        }
        k = pr2.1;
    }
    None
}

/// Reads a whole snapshot text back into a store, or reports that the text is
/// not a well-formed snapshot.
#[verifier::rlimit(100)]
pub fn load_inventory_from_string(s: &str) -> (r: Option<Inventory>)
    ensures
        match r {
            Some(inv) => parse_inventory_spec(s@) == Some(inv@),
            None => parse_inventory_spec(s@) is None,
        },
{
    let v = str_chars(s);
    let p0 = match eat_lit(&v, 0, "{\"compartments\":") {
        None => {
            return None;
        },
        Some(j) => j,
    };
    let comps = match parse_comps(&v, p0) {
        None => {
            return None;
        },
        Some(p) => p,
    };
    let c1 = match eat_lit(&v, comps.1, ",\"containers\":") {
        None => {
            return None;
        },
        Some(j) => j,
    };
    let conts = match parse_conts(&v, c1) {
        None => {
            return None;
        },
        Some(p) => p,
    };
    let c2 = match eat_lit(&v, conts.1, ",\"tags\":") {
        None => {
            return None;
        },
        Some(j) => j,
    };
    let tags = match parse_tags(&v, c2) {
        None => {
            return None;
        },
        Some(p) => p,
    };
    let c3 = match eat_lit(&v, tags.1, ",\"items\":") {
        None => {
            return None;
        },
        Some(j) => j,
    };
    let items = match parse_items(&v, c3) {
        None => {
            return None;
        },
        Some(p) => p,
    };
    let k1 = match eat_lit(&v, items.1, ",\"cnt_compartment\":") {
        None => {
            return None;
        },
        Some(j) => j,
    };
    let n1 = match parse_num(&v, k1) {
        None => {
            return None;
        },
        Some(p) => p,
    };
    let k2 = match eat_lit(&v, n1.1, ",\"cnt_container\":") {
        None => {
            return None;
        },
        Some(j) => j,
    };
    let n2 = match parse_num(&v, k2) {
        None => {
            return None;
        },
        Some(p) => p,
    };
    let k3 = match eat_lit(&v, n2.1, ",\"cnt_item\":") {
        None => {
            return None;
        },
        Some(j) => j,
    };
    let n3 = match parse_num(&v, k3) {
        None => {
            return None;
        },
        Some(p) => p,
    };
    let k4 = match eat_lit(&v, n3.1, ",\"cnt_tag\":") {
        None => {
            return None;
        },
        Some(j) => j,
    };
    let n4 = match parse_num(&v, k4) {
        None => {
            return None;
        },
        Some(p) => p,
    };
    let kend = match eat_lit(&v, n4.1, "}") {
        None => {
            return None;
        },
        Some(j) => j,
    };
    if kend != v.len() {
        return None;
    }
    let inv = Inventory {
        compartments: comps.0,
        containers: conts.0,
        tags: tags.0,
        items: items.0,
        cnt_compartment: n1.0,
        cnt_container: n2.0,
        cnt_item: n3.0,
        cnt_tag: n4.0,
    };
    proof {
        assert(inv@ =~= p_inv(s@, 0)->Some_0.0);
    }
    Some(inv)
}

} // verus!
