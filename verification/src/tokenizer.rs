use vstd::prelude::*;

use crate::text::{push_char, str_chars};

verus! {

/// One left-to-right step state of the tokenizer: `cur` is the token built so
/// far, `inq` says whether a double quote is open, `acc` the finished tokens.
/// A quote toggles `inq`; a closing quote flushes `cur` even when empty; a
/// space outside quotes flushes a non-empty `cur` and is itself dropped; any
/// other character joins `cur`; leftover text at the end becomes a final
/// token when non-empty.
pub open spec fn tokenize_from(
    s: Seq<char>,
    i: int,
    cur: Seq<char>,
    inq: bool,
    acc: Seq<Seq<char>>,
) -> Seq<Seq<char>>
    decreases s.len() - i,
{
    if i < 0 || i >= s.len() {
        if cur.len() != 0 {
            acc.push(cur)
        } else {
            acc
        }
    } else {
        let c = s[i];
        if c == '"' {
            if inq {
                tokenize_from(s, i + 1, Seq::empty(), false, acc.push(cur))
            } else {
                tokenize_from(s, i + 1, cur, true, acc)
            }
        } else if c == ' ' && !inq {
            if cur.len() == 0 {
                tokenize_from(s, i + 1, cur, false, acc)
            } else {
                tokenize_from(s, i + 1, Seq::empty(), false, acc.push(cur))
            }
        } else {
            tokenize_from(s, i + 1, cur.push(c), inq, acc)
        }
    }
}

/// The tokens of one typed line.
pub open spec fn tokenize(s: Seq<char>) -> Seq<Seq<char>> {
    tokenize_from(s, 0, Seq::empty(), false, Seq::empty())
}

/// Splits a typed line into arguments: space-separated, with double-quoted
/// stretches kept verbatim, spaces included.
pub fn get_arguments(in_str: &str) -> (r: Vec<String>)
    ensures
        r@.map_values(|t: String| t@) == tokenize(in_str@),
{
    let chars = str_chars(in_str);
    let mut args: Vec<String> = Vec::new();
    let mut tmp_string = String::new();
    let mut quote_start: bool = false;
    let mut i: usize = 0;

    proof {
        assert(args@.map_values(|t: String| t@) =~= Seq::<Seq<char>>::empty());
    }

    while i < chars.len()
        invariant
            chars@ == in_str@,
            i <= chars.len(),
            tokenize(in_str@) == tokenize_from(
                in_str@,
                i as int,
                tmp_string@,
                quote_start,
                args@.map_values(|t: String| t@),
            ),
        decreases chars.len() - i,
    {
        let ghost pre_args = args@.map_values(|t: String| t@);
        let c = chars[i];
        if c == '"' {
            if quote_start {
                args.push(tmp_string);
                tmp_string = String::new();
                quote_start = false;
                proof {
                    assert(args@.map_values(|t: String| t@) =~= pre_args.push(args@.last()@));
                }
            } else {
                quote_start = true;
            }
        } else if c == ' ' {
            if quote_start {
                push_char(&mut tmp_string, c);
            } else {
                if tmp_string.as_str().unicode_len() != 0 {
                    args.push(tmp_string);
                    tmp_string = String::new();
                    quote_start = false;
                    proof {
                        assert(args@.map_values(|t: String| t@) =~= pre_args.push(args@.last()@));
                    }
                }
            }
        } else {
            push_char(&mut tmp_string, c);
        }
        i = i + 1;
    }

    if tmp_string.as_str().unicode_len() != 0 {
        let ghost pre_args = args@.map_values(|t: String| t@);
        args.push(tmp_string);
        proof {
            assert(args@.map_values(|t: String| t@) =~= pre_args.push(args@.last()@));
        }
    }

    args
}

} // verus!
