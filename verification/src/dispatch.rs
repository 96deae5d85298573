use vstd::prelude::*;

use crate::error::GenericError;
use crate::gui::{AppContext, InviLayout};
use crate::inventory::{
    add_compartment_spec, add_container_spec, add_item_spec, add_tag_spec, first_missing_tag,
    has_compartment_id, has_container_id, msg_compartment_not_found, msg_container_not_found,
    msg_tag_not_found, IdType, InventoryV,
};
use crate::text::{parse_u32, parse_u32_spec, push_char, str_eq, ParseNumError};
use crate::tokenizer::{get_arguments, tokenize};
use vstd::string::StringExecFns;

verus! {

/// What the main loop must do after one dispatched line: nothing more, leave
/// the loop, or persist the store (`Save(true)`: leave once the save
/// succeeded).
#[derive(Debug, PartialEq, Eq)]
pub enum DispatchAction {
    Nothing,
    Quit,
    Save(bool),
}

/// Diagnostic for a verb given the wrong number of arguments.
pub open spec fn msg_arity() -> Seq<char> {
    "Error invalid number of arguments"@
}

/// Diagnostic for an id argument that is not a valid unsigned integer.
pub open spec fn parse_err_text(e: ParseNumError) -> Seq<char> {
    match e {
        ParseNumError::Empty => "cannot parse integer from empty string"@,
        ParseNumError::InvalidDigit => "invalid digit found in string"@,
        ParseNumError::Overflow => "number too large to fit in target type"@,
    }
}

/// Diagnostic for `:q` while unsaved changes are pending.
pub open spec fn msg_unwritten() -> Seq<char> {
    "There are unwritten changes in the inventory, write the changes(:w) or force quit(:q!) "@
}

/// Diagnostic written when a save attempt failed.
pub open spec fn msg_save_failed(e: Seq<char>) -> Seq<char> {
    "Error while saving file: "@ + e + seq!['\n']
}

/// Each argument from `i` on parsed as an id, in order; the first failure
/// wins.
pub open spec fn parse_ids_from(args: Seq<Seq<char>>, i: int) -> Result<Seq<IdType>, ParseNumError>
    decreases args.len() - i,
{
    if i < 0 || i >= args.len() {
        Ok(Seq::empty())
    } else {
        match parse_u32_spec(args[i]) {
            Err(e) => Err(e),
            Ok(n) => match parse_ids_from(args, i + 1) {
                Err(e) => Err(e),
                Ok(rest) => Ok(seq![n] + rest),
            },
        }
    }
}

/// What `:atag` does to the store, given its arguments.
pub open spec fn tag_cmd(inv: InventoryV, args: Seq<Seq<char>>) -> Result<InventoryV, Seq<char>> {
    if args.len() != 1 {
        Err(msg_arity())
    } else {
        Ok(add_tag_spec(inv, args[0]))
    }
}

/// What `:acomp` does to the store, given its arguments.
pub open spec fn comp_cmd(inv: InventoryV, args: Seq<Seq<char>>) -> Result<InventoryV, Seq<char>> {
    if args.len() != 1 {
        Err(msg_arity())
    } else {
        Ok(add_compartment_spec(inv, args[0]))
    }
}

/// What `:aitem` does to the store, given its arguments.
pub open spec fn item_cmd(inv: InventoryV, args: Seq<Seq<char>>) -> Result<InventoryV, Seq<char>> {
    if args.len() != 2 {
        Err(msg_arity())
    } else {
        match parse_u32_spec(args[1]) {
            Err(e) => Err(parse_err_text(e)),
            Ok(id) => {
                if has_container_id(inv, id) {
                    Ok(add_item_spec(inv, args[0], id))
                } else {
                    Err(msg_container_not_found(id))
                }
            },
        }
    }
}

/// What `:acont` does to the store, given its arguments.
pub open spec fn cont_cmd(inv: InventoryV, args: Seq<Seq<char>>) -> Result<InventoryV, Seq<char>> {
    if args.len() < 2 {
        Err(msg_arity())
    } else {
        match parse_u32_spec(args[1]) {
            Err(e) => Err(parse_err_text(e)),
            Ok(com_id) => match parse_ids_from(args, 2) {
                Err(e) => Err(parse_err_text(e)),
                Ok(tag_ids) => match first_missing_tag(inv.tags, tag_ids) {
                    Some(m) => Err(msg_tag_not_found(m)),
                    None => {
                        if has_compartment_id(inv, com_id) {
                            Ok(add_container_spec(inv, args[0], com_id, tag_ids))
                        } else {
                            Err(msg_compartment_not_found(com_id))
                        }
                    },
                },
            },
        }
    }
}

/// Parses every argument from `start` on as an id.
pub fn get_ids_from_args(args: &Vec<String>, start: usize) -> (r: Result<Vec<IdType>, GenericError>)
    ensures
        match parse_ids_from(args@.map_values(|s: String| s@), start as int) {
            Ok(ids) => r is Ok && r->Ok_0@ == ids,
            Err(e) => r is Err && r->Err_0@ == parse_err_text(e),
        },
{
    let ghost a = args@.map_values(|s: String| s@);
    let mut tag_ids: Vec<IdType> = Vec::new();
    if start >= args.len() {
        return Ok(tag_ids);
    }
    let mut k: usize = start;
    while k < args.len()
        invariant
            a == args@.map_values(|s: String| s@),
            start <= k <= args@.len(),
            (match parse_ids_from(a, k as int) {
                Ok(rest) => parse_ids_from(a, start as int) == Ok::<Seq<IdType>, ParseNumError>(
                    tag_ids@ + rest,
                ),
                Err(e) => parse_ids_from(a, start as int) == Err::<Seq<IdType>, ParseNumError>(e),
            }),
        decreases args@.len() - k,
    {
        let ghost pre = tag_ids@;
        match parse_u32(args[k].as_str()) {
            Err(e) => {
                return Err(GenericError::new(e.message().to_owned()));
            },
            Ok(n) => {
                tag_ids.push(n);
                proof {
                    let r2 = parse_ids_from(a, k as int + 1);
                    if r2 is Ok {
                        assert(pre + (seq![n] + r2->Ok_0) =~= tag_ids@ + r2->Ok_0);
                    }
                }
            },
        }
        k = k + 1;
    }
    proof {
        assert(parse_ids_from(a, k as int) == Ok::<Seq<IdType>, ParseNumError>(
            Seq::<IdType>::empty(),
        ));
        assert(tag_ids@ + Seq::<IdType>::empty() =~= tag_ids@);
    }
    Ok(tag_ids)
}



/// Handles `:atag <name>`.
pub fn add_tag(context: &mut AppContext, args: &Vec<String>) -> (r: Result<(), GenericError>)
    requires
        old(context).wf(),
        old(context).inventory@.cnt_tag < IdType::MAX,
    ensures
        final(context).wf(),
        match tag_cmd(old(context).inventory@, args@.map_values(|s: String| s@)) {
            Ok(w) => r is Ok && final(context).inventory@ == w && (*final(context) == (AppContext {
                inventory: final(context).inventory,
                invi_dirty: true,
                ..*old(context)
            })),
            Err(m) => r is Err && r->Err_0@ == m && *final(context) == *old(context),
        },
{
    if args.len() != 1 {
        return Err(GenericError::new("Error invalid number of arguments".to_owned()));
    }
    let name = &args[0];
    context.inventory.add_tag(name.as_str());
    context.invi_dirty = true;
    Ok(())
}

/// Handles `:acomp <name>`.
pub fn add_compartment(context: &mut AppContext, args: &Vec<String>) -> (r: Result<
    (),
    GenericError,
>)
    requires
        old(context).wf(),
        old(context).inventory@.cnt_compartment < IdType::MAX,
    ensures
        final(context).wf(),
        match comp_cmd(old(context).inventory@, args@.map_values(|s: String| s@)) {
            Ok(w) => r is Ok && final(context).inventory@ == w && (*final(context) == (AppContext {
                inventory: final(context).inventory,
                invi_dirty: true,
                ..*old(context)
            })),
            Err(m) => r is Err && r->Err_0@ == m && *final(context) == *old(context),
        },
{
    if args.len() != 1 {
        return Err(GenericError::new("Error invalid number of arguments".to_owned()));
    }
    let name = &args[0];
    context.inventory.add_compartment(name.as_str());
    context.invi_dirty = true;
    Ok(())
}

/// Handles `:aitem <name> <container_id>`.
pub fn add_item(context: &mut AppContext, args: &Vec<String>) -> (r: Result<(), GenericError>)
    requires
        old(context).wf(),
        old(context).inventory@.cnt_item < IdType::MAX,
    ensures
        final(context).wf(),
        match item_cmd(old(context).inventory@, args@.map_values(|s: String| s@)) {
            Ok(w) => r is Ok && final(context).inventory@ == w && (*final(context) == (AppContext {
                inventory: final(context).inventory,
                invi_dirty: true,
                ..*old(context)
            })),
            Err(m) => r is Err && r->Err_0@ == m && *final(context) == *old(context),
        },
{
    if args.len() != 2 {
        return Err(GenericError::new("Error invalid number of arguments".to_owned()));
    }
    let con_id: IdType = match parse_u32(args[1].as_str()) {
        Err(e) => {
            return Err(GenericError::new(e.message().to_owned()));
        },
        Ok(n) => n,
    };
    let name = &args[0];
    match context.inventory.add_item(name.as_str(), con_id) {
        Err(s) => Err(GenericError::new(s)),
        Ok(_) => {
            context.invi_dirty = true;
            Ok(())
        },
    }
}

/// Handles `:acont <name> <compartment_id> [tag_id...]`.
pub fn add_container(context: &mut AppContext, args: &Vec<String>) -> (r: Result<(), GenericError>)
    requires
        old(context).wf(),
        old(context).inventory@.cnt_container < IdType::MAX,
    ensures
        final(context).wf(),
        match cont_cmd(old(context).inventory@, args@.map_values(|s: String| s@)) {
            Ok(w) => r is Ok && final(context).inventory@ == w && (*final(context) == (AppContext {
                inventory: final(context).inventory,
                invi_dirty: true,
                ..*old(context)
            })),
            Err(m) => r is Err && r->Err_0@ == m && *final(context) == *old(context),
        },
{
    if args.len() < 2 {
        return Err(GenericError::new("Error invalid number of arguments".to_owned()));
    }
    let com_id: IdType = match parse_u32(args[1].as_str()) {
        Err(e) => {
            return Err(GenericError::new(e.message().to_owned()));
        },
        Ok(n) => n,
    };
    let tags = match get_ids_from_args(args, 2) {
        Err(e) => {
            return Err(e);
        },
        Ok(v) => v,
    };
    let name = &args[0];
    match context.inventory.add_container(name.as_str(), com_id, tags) {
        Err(s) => Err(GenericError::new(s)),
        Ok(_) => {
            context.invi_dirty = true;
            Ok(())
        },
    }
}

/// The text of the help listing, line by line.
pub open spec fn help_text() -> Seq<char> {
    "This is the Invi help:"@ + seq!['\n'] + "Invi is a easy to used terminal based inventory manager"@
        + seq!['\n'] + "Commands:"@ + seq!['\n']
        + "    :q                  quit invi (save first)"@ + seq!['\n']
        + "    :ct                 clear the terminals"@ + seq!['\n']
        + "    hlp | ? | help      prints this message"@ + seq!['\n']
        + "    :atag               adds a new tag <name>"@ + seq!['\n']
        + "    :acomp              adds a new compartment <name>"@ + seq!['\n']
        + "    :acont              adds a new container <name> <compartment_id> <tag_id1> <tag_id2> ... <tag_idn>"@
        + seq!['\n'] + "    :aitem              adds a new item <name> <container_id>"@
        + seq!['\n']
        + "    :/<str>             used to search, items, containers, and compartments are listed also tag stuff"@
        + seq!['\n']
}

/// Writes the help listing to the terminal pane.
pub fn print_help_msg(context: &mut AppContext)
    ensures
        *final(context) == (AppContext { term_txt: final(context).term_txt, ..*old(context) }),
        final(context).term_txt@ == old(context).term_txt@ + help_text(),
{
    context.writeln_to_terminal("This is the Invi help:");
    context.writeln_to_terminal("Invi is a easy to used terminal based inventory manager");
    context.writeln_to_terminal("Commands:");
    context.writeln_to_terminal("    :q                  quit invi (save first)");
    context.writeln_to_terminal("    :ct                 clear the terminals");
    context.writeln_to_terminal("    hlp | ? | help      prints this message");
    context.writeln_to_terminal("    :atag               adds a new tag <name>");
    context.writeln_to_terminal("    :acomp              adds a new compartment <name>");
    context.writeln_to_terminal(
        "    :acont              adds a new container <name> <compartment_id> <tag_id1> <tag_id2> ... <tag_idn>",
    );
    context.writeln_to_terminal("    :aitem              adds a new item <name> <container_id>");
    context.writeln_to_terminal(
        "    :/<str>             used to search, items, containers, and compartments are listed also tag stuff",
    );
    proof {
        assert(context.term_txt@ =~= old(context).term_txt@ + help_text());
    }
}

/// The arguments of an unrecognized verb, rendered like a list of quoted
/// strings.
pub open spec fn dbg_rest(args: Seq<Seq<char>>) -> Seq<char>
    decreases args.len(),
{
    if args.len() == 0 {
        Seq::empty()
    } else {
        ", "@ + seq!['"'] + args[0] + seq!['"'] + dbg_rest(args.drop_first())
    }
}

pub open spec fn dbg_list(args: Seq<Seq<char>>) -> Seq<char> {
    if args.len() == 0 {
        seq!['[', ']']
    } else {
        seq!['[', '"'] + args[0] + seq!['"'] + dbg_rest(args.drop_first()) + seq![']']
    }
}

/// The echo line for a verb the table does not know.
pub open spec fn unknown_msg(verb: Seq<char>, args: Seq<Seq<char>>) -> Seq<char> {
    "No use for \""@ + verb + "\" and args: "@ + dbg_list(args) + seq!['\n']
}

fn push_dbg_rest(out: &mut String, args: &Vec<String>, k: usize)
    requires
        1 <= k <= args@.len(),
    ensures
        final(out)@ == old(out)@ + dbg_rest(args@.map_values(|s: String| s@).skip(k as int)),
    decreases args@.len() - k,
{
    let ghost a = args@.map_values(|s: String| s@);
    if k == args.len() {
        proof {
            assert(a.skip(k as int) =~= Seq::<Seq<char>>::empty());
            assert(out@ + dbg_rest(a.skip(k as int)) =~= out@);
        }
    } else {
        out.append(", ");
        push_char(out, '"');
        out.append(args[k].as_str());
        push_char(out, '"');
        push_dbg_rest(out, args, k + 1);
        proof {
            assert(a.skip(k as int)[0] == a[k as int]);
            assert(a.skip(k as int).drop_first() =~= a.skip(k as int + 1));
            reveal_strlit(", ");
            assert(", "@ =~= seq![',', ' ']);
            assert(out@ =~= old(out)@ + dbg_rest(a.skip(k as int)));
        }
    }
}

/// Builds the echo line for an unrecognized verb and its arguments.
fn build_unknown_msg(verb: &str, args: &Vec<String>) -> (r: String)
    requires
        1 <= args@.len(),
    ensures
        r@ == unknown_msg(verb@, args@.map_values(|s: String| s@).drop_first()),
{
    let ghost a = args@.map_values(|s: String| s@);
    let mut m = "No use for \"".to_owned();
    m.append(verb);
    m.append("\" and args: ");
    if args.len() == 1 {
        m.append("[]");
        proof {
            reveal_strlit("[]");
            assert("[]"@ =~= seq!['[', ']']);
            assert(a.drop_first() =~= Seq::<Seq<char>>::empty());
        }
    } else {
        push_char(&mut m, '[');
        push_char(&mut m, '"');
        m.append(args[1].as_str());
        push_char(&mut m, '"');
        push_dbg_rest(&mut m, args, 2);
        push_char(&mut m, ']');
        proof {
            assert(a.drop_first()[0] == a[1]);
            assert(a.drop_first().drop_first() =~= a.skip(2));
        }
    }
    push_char(&mut m, '\n');
    proof {
        assert(m@ =~= unknown_msg(verb@, a.drop_first()));
    }
    m
}

/// Records that a save went through: nothing is pending any more.
pub fn save_succeeded(context: &mut AppContext)
    ensures
        *final(context) == (AppContext { invi_dirty: false, ..*old(context) }),
{
    context.invi_dirty = false;
}

/// Records that a save failed: the diagnostic lands in the terminal pane and
/// the pending flag stays, so the save can be retried.
pub fn save_failed(context: &mut AppContext, err: &str)
    ensures
        *final(context) == (AppContext { term_txt: final(context).term_txt, ..*old(context) }),
        final(context).term_txt@ == old(context).term_txt@ + msg_save_failed(err@),
{
    let mut m = "Error while saving file: ".to_owned();
    m.append(err);
    context.writeln_to_terminal(m.as_str());
}



/// Matches the first token of a typed line against the verb table, runs the
/// command, writes its diagnostics to the terminal pane, records the line in
/// the recall history, and says what the main loop must do next.
#[verifier::rlimit(100)]
pub fn dispatch_input(input: &str, context: &mut AppContext) -> (r: DispatchAction)
    requires
        old(context).wf(),
        old(context).inventory@.cnt_tag < IdType::MAX,
        old(context).inventory@.cnt_compartment < IdType::MAX,
        old(context).inventory@.cnt_container < IdType::MAX,
        old(context).inventory@.cnt_item < IdType::MAX,
    ensures
        final(context).wf(),
        ({
            let toks = tokenize(input@);
            if toks.len() == 0 {
                *final(context) == *old(context) && r is Nothing
            } else {
                let verb = toks[0];
                let rest = toks.drop_first();
                let inv0 = old(context).inventory@;
                &&& final(context).scroll_items@.map_values(|s: String| s@) == old(context).scroll_items@.map_values(|s: String| s@).push(input@)
                &&& final(context).txt_input == old(context).txt_input
                &&& final(context).cursor_pos == old(context).cursor_pos
                &&& final(context).scroll_back == old(context).scroll_back
                &&& final(context).size_w == old(context).size_w
                &&& final(context).size_h == old(context).size_h
                &&& (if verb == ":q"@ {
                    &&& final(context).inventory == old(context).inventory
                    &&& final(context).invi_dirty == old(context).invi_dirty
                    &&& final(context).layout == old(context).layout
                    &&& final(context).gui_dirty == old(context).gui_dirty
                    &&& (if old(context).invi_dirty {
                        final(context).term_txt@ == old(context).term_txt@ + msg_unwritten()
                            + seq!['\n'] && r is Nothing
                    } else {
                        final(context).term_txt == old(context).term_txt && r is Quit
                    })
                } else if verb == ":q!"@ {
                    &&& final(context).inventory == old(context).inventory
                    &&& final(context).invi_dirty == old(context).invi_dirty
                    &&& final(context).layout == old(context).layout
                    &&& final(context).gui_dirty == old(context).gui_dirty
                    &&& final(context).term_txt == old(context).term_txt
                    &&& r is Quit
                } else if verb == ":ct"@ || verb == "cls"@ {
                    &&& final(context).inventory == old(context).inventory
                    &&& final(context).invi_dirty == old(context).invi_dirty
                    &&& final(context).layout == old(context).layout
                    &&& final(context).gui_dirty
                    &&& final(context).term_txt@ == Seq::<char>::empty()
                    &&& r is Nothing
                } else if verb == ":0"@ {
                    &&& final(context).inventory == old(context).inventory
                    &&& final(context).invi_dirty == old(context).invi_dirty
                    &&& final(context).layout is Terminal
                    &&& final(context).gui_dirty
                    &&& final(context).term_txt == old(context).term_txt
                    &&& r is Nothing
                } else if verb == ":1"@ {
                    &&& final(context).inventory == old(context).inventory
                    &&& final(context).invi_dirty == old(context).invi_dirty
                    &&& final(context).layout is Overview
                    &&& final(context).gui_dirty
                    &&& final(context).term_txt == old(context).term_txt
                    &&& r is Nothing
                } else if verb == ":wq"@ {
                    &&& final(context).inventory == old(context).inventory
                    &&& final(context).invi_dirty == old(context).invi_dirty
                    &&& final(context).layout == old(context).layout
                    &&& final(context).gui_dirty == old(context).gui_dirty
                    &&& final(context).term_txt == old(context).term_txt
                    &&& r == DispatchAction::Save(true)
                } else if verb == ":w"@ {
                    &&& final(context).inventory == old(context).inventory
                    &&& final(context).invi_dirty == old(context).invi_dirty
                    &&& final(context).layout == old(context).layout
                    &&& final(context).gui_dirty == old(context).gui_dirty
                    &&& final(context).term_txt == old(context).term_txt
                    &&& r == DispatchAction::Save(false)
                } else if verb == ":help"@ || verb == ":?"@ || verb == "help"@ || verb == "?"@
                    || verb == "hlp"@ || verb == ":hlp"@ {
                    &&& final(context).inventory == old(context).inventory
                    &&& final(context).invi_dirty == old(context).invi_dirty
                    &&& final(context).layout == old(context).layout
                    &&& final(context).gui_dirty == old(context).gui_dirty
                    &&& final(context).term_txt@ == old(context).term_txt@ + help_text()
                    &&& r is Nothing
                } else if verb == ":aitem"@ {
                    &&& final(context).layout == old(context).layout
                    &&& final(context).gui_dirty == old(context).gui_dirty
                    &&& (match item_cmd(inv0, rest) {
                        Ok(w) => final(context).inventory@ == w && final(context).invi_dirty
                            && final(context).term_txt == old(context).term_txt,
                        Err(m) => final(context).inventory == old(context).inventory && final(context).invi_dirty == old(context).invi_dirty && final(context).term_txt@ == old(context).term_txt@ + m + seq!['\n'],
                    })
                    &&& r is Nothing
                } else if verb == ":atag"@ {
                    &&& final(context).layout == old(context).layout
                    &&& final(context).gui_dirty == old(context).gui_dirty
                    &&& (match tag_cmd(inv0, rest) {
                        Ok(w) => final(context).inventory@ == w && final(context).invi_dirty
                            && final(context).term_txt == old(context).term_txt,
                        Err(m) => final(context).inventory == old(context).inventory && final(context).invi_dirty == old(context).invi_dirty && final(context).term_txt@ == old(context).term_txt@ + m + seq!['\n'],
                    })
                    &&& r is Nothing
                } else if verb == ":acomp"@ {
                    &&& final(context).layout == old(context).layout
                    &&& final(context).gui_dirty == old(context).gui_dirty
                    &&& (match comp_cmd(inv0, rest) {
                        Ok(w) => final(context).inventory@ == w && final(context).invi_dirty
                            && final(context).term_txt == old(context).term_txt,
                        Err(m) => final(context).inventory == old(context).inventory && final(context).invi_dirty == old(context).invi_dirty && final(context).term_txt@ == old(context).term_txt@ + m + seq!['\n'],
                    })
                    &&& r is Nothing
                } else if verb == ":acont"@ {
                    &&& final(context).layout == old(context).layout
                    &&& final(context).gui_dirty == old(context).gui_dirty
                    &&& (match cont_cmd(inv0, rest) {
                        Ok(w) => final(context).inventory@ == w && final(context).invi_dirty
                            && final(context).term_txt == old(context).term_txt,
                        Err(m) => final(context).inventory == old(context).inventory && final(context).invi_dirty == old(context).invi_dirty && final(context).term_txt@ == old(context).term_txt@ + m + seq!['\n'],
                    })
                    &&& r is Nothing
                } else {
                    &&& final(context).inventory == old(context).inventory
                    &&& final(context).invi_dirty == old(context).invi_dirty
                    &&& final(context).layout == old(context).layout
                    &&& final(context).gui_dirty
                    &&& final(context).term_txt@ == old(context).term_txt@ + unknown_msg(
                        verb,
                        rest,
                    )
                    &&& r is Nothing
                })
            }
        }),
{
    let ghost toks = tokenize(input@);
    let mut args = get_arguments(input);
    if args.len() == 0 {
        return DispatchAction::Nothing;
    }
    let first_arg = args.remove(0);
    proof {
        assert(args@.map_values(|s: String| s@) =~= toks.drop_first());
        assert(first_arg@ == toks[0]);
    }
    let verb = first_arg.as_str();

    let action: DispatchAction = if str_eq(verb, ":q") {
        if context.invi_dirty {
            context.writeln_to_terminal(
                "There are unwritten changes in the inventory, write the changes(:w) or force quit(:q!) ",
            );
            DispatchAction::Nothing
        } else {
            DispatchAction::Quit
        }
    } else if str_eq(verb, ":q!") {
        DispatchAction::Quit
    } else if str_eq(verb, ":ct") || str_eq(verb, "cls") {
        context.clear_terminal();
        DispatchAction::Nothing
    } else if str_eq(verb, ":0") {
        context.layout = InviLayout::Terminal;
        context.gui_dirty = true;
        DispatchAction::Nothing
    } else if str_eq(verb, ":1") {
        context.layout = InviLayout::Overview;
        context.gui_dirty = true;
        DispatchAction::Nothing
    } else if str_eq(verb, ":wq") {
        DispatchAction::Save(true)
    } else if str_eq(verb, ":w") {
        DispatchAction::Save(false)
    } else if str_eq(verb, ":help") || str_eq(verb, ":?") || str_eq(verb, "help") || str_eq(
        verb,
        "?",
    ) || str_eq(verb, "hlp") || str_eq(verb, ":hlp") {
        print_help_msg(context);
        DispatchAction::Nothing
    } else if str_eq(verb, ":aitem") {
        match add_item(context, &args) {
            Err(e) => {
                context.writeln_to_terminal(e.message().as_str());
            },
            Ok(_) => {},
        }
        DispatchAction::Nothing
    } else if str_eq(verb, ":atag") {
        match add_tag(context, &args) {
            Err(e) => {
                context.writeln_to_terminal(e.message().as_str());
            },
            Ok(_) => {},
        }
        DispatchAction::Nothing
    } else if str_eq(verb, ":acomp") {
        match add_compartment(context, &args) {
            Err(e) => {
                context.writeln_to_terminal(e.message().as_str());
            },
            Ok(_) => {},
        }
        DispatchAction::Nothing
    } else if str_eq(verb, ":acont") {
        match add_container(context, &args) {
            Err(e) => {
                context.writeln_to_terminal(e.message().as_str());
            },
            Ok(_) => {},
        }
        DispatchAction::Nothing
    } else {
        let line = build_unknown_msg(verb, &get_arguments(input));
        context.term_txt.append(line.as_str());
        context.gui_dirty = true;
        DispatchAction::Nothing
    };

    let ghost pre_items = context.scroll_items@.map_values(|s: String| s@);
    context.scroll_items.push(input.to_owned());
    proof {
        assert(context.scroll_items@.map_values(|s: String| s@) =~= pre_items.push(input@));
    }
    action
}

} // verus!
