use vstd::prelude::*;

use crate::inventory::Inventory;
use crate::text::{push_char, str_chars, string_of_chars};
use vstd::string::StringExecFns;

verus! {

/// Which panel fills the main area.
#[derive(Debug, PartialEq, Eq, Clone, Copy)]
pub enum InviLayout {
    Terminal,
    Search,
    Overview,
}

/// One decoded key press, as the editor understands it; anything the editor
/// ignores arrives as `Other`.
pub enum InputKey {
    Char(char),
    Left,
    Right,
    Home,
    End,
    Esc,
    Backspace,
    Up,
    Down,
    Other,
}

/// An event handed to the main loop: one decoded key, or one timer tick.
pub enum Event<I> {
    Input(I),
    Tick,
}

/// Settings for the event producers.
#[derive(Debug, Clone, Copy)]
pub struct Config {
    pub tick_rate_ms: u64,
}

impl Default for Config {
    /// One tick every 100 ms.
    fn default() -> (r: Config)
        ensures
            r.tick_rate_ms == 100,
    {
        Config { tick_rate_ms: 100 }
    }
}

/// The whole single-threaded application state: the input line (characters
/// and caret in code-point units), the active layout, the terminal pane text,
/// the recall history, the two dirty flags, and the store.
pub struct AppContext {
    pub txt_input: Vec<char>,
    pub cursor_pos: usize,
    pub layout: InviLayout,
    pub size_w: u16,
    pub size_h: u16,
    pub gui_dirty: bool,
    pub inventory: Inventory,
    pub invi_dirty: bool,
    pub scroll_back: usize,
    pub scroll_items: Vec<String>,
    pub term_txt: String,
}

impl AppContext {
    /// Validity of the state: the store keeps its integrity, the caret stays
    /// within the line, and the history cursor stays within the (never
    /// empty) history.
    pub open spec fn wf(&self) -> bool {
        &&& self.inventory.wf()
        &&& self.cursor_pos <= self.txt_input@.len()
        &&& 1 <= self.scroll_items@.len()
        &&& self.scroll_back <= self.scroll_items@.len()
    }

    /// A fresh state around the given store: empty input line, overview
    /// layout, history seeded with one template per creation verb, a first
    /// redraw pending, nothing unsaved.
    pub fn new(inventory: Inventory) -> (r: AppContext)
        requires
            inventory.wf(),
        ensures
            r.wf(),
            r.txt_input@ == Seq::<char>::empty(),
            r.cursor_pos == 0,
            r.layout is Overview,
            r.gui_dirty,
            r.inventory == inventory,
            !r.invi_dirty,
            r.scroll_items@.len() == 4,
            r.scroll_items@[0]@ == ":acont "@,
            r.scroll_items@[1]@ == ":acomp "@,
            r.scroll_items@[2]@ == ":aitem "@,
            r.scroll_items@[3]@ == ":atag "@,
            r.scroll_back == 4,
            r.term_txt@ == Seq::<char>::empty(),
    {
        let mut sc_items: Vec<String> = Vec::new();
        sc_items.push(":acont ".to_owned());
        sc_items.push(":acomp ".to_owned());
        sc_items.push(":aitem ".to_owned());
        sc_items.push(":atag ".to_owned());
        let sc_items_len = sc_items.len();
        AppContext {
            txt_input: Vec::new(),
            cursor_pos: 0,
            layout: InviLayout::Overview,
            size_w: 0,
            size_h: 0,
            gui_dirty: true,
            inventory,
            invi_dirty: false,
            scroll_items: sc_items,
            scroll_back: sc_items_len,
            term_txt: String::new(),
        }
    }

    /// Empties the terminal pane and asks for a redraw.
    pub fn clear_terminal(&mut self)
        ensures
            *final(self) == (AppContext {
                term_txt: final(self).term_txt,
                gui_dirty: true,
                ..*old(self)
            }),
            final(self).term_txt@ == Seq::<char>::empty(),
    {
        self.term_txt = String::new();
        self.gui_dirty = true;
    }

    /// Appends a message to the terminal pane and asks for a redraw.
    pub fn write_to_terminal(&mut self, msg: &str)
        ensures
            *final(self) == (AppContext {
                term_txt: final(self).term_txt,
                gui_dirty: true,
                ..*old(self)
            }),
            final(self).term_txt@ == old(self).term_txt@ + msg@,
    {
        self.term_txt.append(msg);
        self.gui_dirty = true;
    }

    /// Records the terminal size, and asks for a redraw when it changed.
    pub fn check_if_changed(&mut self, width: u16, height: u16)
        ensures
            *final(self) == (AppContext {
                size_w: width,
                size_h: height,
                gui_dirty: final(self).gui_dirty,
                ..*old(self)
            }),
            final(self).gui_dirty == (old(self).gui_dirty || old(self).size_w != width || old(self).size_h != height),
    {
        if self.size_w != width || self.size_h != height {
            self.gui_dirty = true;
        }
        self.size_w = width;
        self.size_h = height;
    }

    /// Reports whether a redraw is due and clears the flag: each change is
    /// painted once.
    pub fn need_redraw(&mut self) -> (r: bool)
        ensures
            r == old(self).gui_dirty,
            *final(self) == (AppContext { gui_dirty: false, ..*old(self) }),
    {
        let dirty = self.gui_dirty;
        self.gui_dirty = false;
        dirty
    }

    /// Appends one line to the terminal pane without asking for a redraw,
    /// as the dispatcher's diagnostics do.
    pub fn writeln_to_terminal(&mut self, msg: &str)
        ensures
            *final(self) == (AppContext { term_txt: final(self).term_txt, ..*old(self) }),
            final(self).term_txt@ == old(self).term_txt@ + msg@ + seq!['\n'],
    {
        self.term_txt.append(msg);
        push_char(&mut self.term_txt, '\n');
    }

    /// The current text of the terminal pane.
    pub fn term_text(&self) -> (r: &String)
        ensures
            r == &self.term_txt,
    {
        &self.term_txt
    }
}

/// Hands out the submitted line and resets the editor: empty line, caret at
/// the start, history cursor rewound, redraw pending.
pub fn get_input_str_and_clear(gui_context: &mut AppContext) -> (r: String)
    ensures
        r@ == old(gui_context).txt_input@,
        *final(gui_context) == (AppContext {
            txt_input: final(gui_context).txt_input,
            cursor_pos: 0,
            gui_dirty: true,
            scroll_back: 0,
            ..*old(gui_context)
        }),
        final(gui_context).txt_input@ == Seq::<char>::empty(),
{
    let tmp = string_of_chars(&gui_context.txt_input);
    gui_context.txt_input = Vec::new();
    gui_context.cursor_pos = 0;
    gui_context.gui_dirty = true;
    gui_context.scroll_back = 0;
    tmp
}

/// How many bytes the character takes in UTF-8.
pub open spec fn char_utf8_len(c: char) -> nat {
    if (c as u32) < 0x80 {
        1
    } else if (c as u32) < 0x800 {
        2
    } else if (c as u32) < 0x10000 {
        3
    } else {
        4
    }
}

/// The UTF-8 byte offset of the code point at `index` (or of the end, when
/// `index` lies beyond the line).
pub open spec fn byte_offset_of(s: Seq<char>, index: int) -> nat
    decreases s.len(),
{
    if index <= 0 || s.len() == 0 {
        0
    } else {
        char_utf8_len(s[0]) + byte_offset_of(s.drop_first(), index - 1)
    }
}

/// Translates a caret position in code points into the byte offset where the
/// line's UTF-8 form would be split.
pub fn get_target_index(in_str: &Vec<char>, index: usize) -> (r: usize)
    requires
        in_str@.len() * 4 <= usize::MAX,
    ensures
        r == byte_offset_of(in_str@, index as int),
{
    let mut target_index: usize = 0;
    let mut k: usize = 0;
    proof {
        assert(in_str@.skip(0) =~= in_str@);
    }
    while k < in_str.len() && k < index
        invariant
            in_str@.len() * 4 <= usize::MAX,
            k <= in_str@.len(),
            k <= index,
            target_index + byte_offset_of(in_str@.skip(k as int), index - k) == byte_offset_of(
                in_str@,
                index as int,
            ),
            target_index <= k * 4,
        decreases in_str@.len() - k,
    {
        let c = in_str[k];
        let w: usize = if (c as u32) < 0x80 {
            1
        } else if (c as u32) < 0x800 {
            2
        } else if (c as u32) < 0x10000 {
            3
        } else {
            4
        };
        proof {
            assert(w == char_utf8_len(in_str@[k as int]));
            assert(in_str@.skip(k as int)[0] == in_str@[k as int]);
            assert(in_str@.skip(k as int).drop_first() =~= in_str@.skip(k as int + 1));
        }
        target_index = target_index + w;
        k = k + 1;
    }
    proof {
        assert(byte_offset_of(in_str@.skip(k as int), index - k) == 0);
    }
    target_index
}

/// The length of the line in code points.
pub fn get_len_any(in_str: &Vec<char>) -> (r: usize)
    ensures
        r == in_str@.len(),
{
    in_str.len()
}

/// Removes the code point at `index`.
pub fn remote_any(in_str: &mut Vec<char>, index: usize)
    requires
        index < old(in_str)@.len(),
    ensures
        final(in_str)@ == old(in_str)@.remove(index as int),
{
    in_str.remove(index);
}

/// Inserts a code point at `index`.
pub fn insert_any(in_str: &mut Vec<char>, index: usize, ch: char)
    requires
        index <= old(in_str)@.len(),
    ensures
        final(in_str)@ == old(in_str)@.insert(index as int, ch),
{
    in_str.insert(index, ch);
}

/// Replaces the input line wholesale and moves the caret to its end.
pub fn set_txt_input(context: &mut AppContext, msg: String)
    ensures
        *final(context) == (AppContext {
            txt_input: final(context).txt_input,
            cursor_pos: final(context).cursor_pos,
            gui_dirty: true,
            ..*old(context)
        }),
        final(context).txt_input@ == msg@,
        final(context).cursor_pos == msg@.len(),
{
    context.txt_input = str_chars(msg.as_str());
    context.cursor_pos = get_len_any(&context.txt_input);
    context.gui_dirty = true;
}

/// One step of the line editor: printable characters insert at the caret,
/// Left/Right/Home/End move it within the line, Backspace deletes the code
/// point before it, Escape wipes the line, Up/Down cycle the recall history
/// into the line; any other key does nothing.
pub fn handle_input_key(key: InputKey, context: &mut AppContext)
    requires
        old(context).wf(),
        old(context).txt_input@.len() < usize::MAX,
    ensures
        final(context).wf(),
        final(context).inventory == old(context).inventory,
        final(context).invi_dirty == old(context).invi_dirty,
        final(context).layout == old(context).layout,
        final(context).term_txt == old(context).term_txt,
        final(context).scroll_items == old(context).scroll_items,
        final(context).size_w == old(context).size_w,
        final(context).size_h == old(context).size_h,
        match key {
            InputKey::Char(c) => {
                &&& final(context).txt_input@ == old(context).txt_input@.insert(
                    old(context).cursor_pos as int,
                    c,
                )
                &&& final(context).cursor_pos == old(context).cursor_pos + 1
                &&& final(context).gui_dirty
                &&& final(context).scroll_back == old(context).scroll_back
            },
            InputKey::Left => {
                &&& final(context).txt_input == old(context).txt_input
                &&& final(context).cursor_pos == (if old(context).cursor_pos > 0 {
                    (old(context).cursor_pos - 1) as usize
                } else {
                    0usize
                })
                &&& final(context).gui_dirty == old(context).gui_dirty
                &&& final(context).scroll_back == old(context).scroll_back
            },
            InputKey::Right => {
                &&& final(context).txt_input == old(context).txt_input
                &&& final(context).cursor_pos == (if old(context).cursor_pos
                    < old(context).txt_input@.len() {
                    (old(context).cursor_pos + 1) as usize
                } else {
                    old(context).txt_input@.len() as usize
                })
                &&& final(context).gui_dirty == old(context).gui_dirty
                &&& final(context).scroll_back == old(context).scroll_back
            },
            InputKey::Home => {
                &&& final(context).txt_input == old(context).txt_input
                &&& final(context).cursor_pos == 0
                &&& final(context).gui_dirty == old(context).gui_dirty
                &&& final(context).scroll_back == old(context).scroll_back
            },
            InputKey::End => {
                &&& final(context).txt_input == old(context).txt_input
                &&& final(context).cursor_pos == old(context).txt_input@.len()
                &&& final(context).gui_dirty == old(context).gui_dirty
                &&& final(context).scroll_back == old(context).scroll_back
            },
            InputKey::Esc => {
                &&& final(context).txt_input@ == Seq::<char>::empty()
                &&& final(context).cursor_pos == 0
                &&& final(context).gui_dirty
                &&& final(context).scroll_back == 0
            },
            InputKey::Backspace => {
                &&& final(context).gui_dirty
                &&& final(context).scroll_back == old(context).scroll_back
                &&& (if old(context).cursor_pos > 0 {
                    final(context).txt_input@ == old(context).txt_input@.remove(
                        old(context).cursor_pos - 1,
                    ) && final(context).cursor_pos == (if old(context).cursor_pos
                        < old(context).txt_input@.len() - 1 {
                        (old(context).cursor_pos - 1) as usize
                    } else {
                        (old(context).txt_input@.len() - 1) as usize
                    })
                } else {
                    final(context).txt_input == old(context).txt_input && final(context).cursor_pos == 0
                })
            },
            InputKey::Up => {
                &&& final(context).scroll_back == (if old(context).scroll_back < 1 {
                    (old(context).scroll_items@.len() - 1) as usize
                } else {
                    (old(context).scroll_back - 1) as usize
                })
                &&& final(context).txt_input@ == old(context).scroll_items@[final(context).scroll_back as int]@
                &&& final(context).cursor_pos == final(context).txt_input@.len()
                &&& final(context).gui_dirty
            },
            InputKey::Down => {
                &&& final(context).scroll_back == (if old(context).scroll_back + 1
                    < old(context).scroll_items@.len() {
                    (old(context).scroll_back + 1) as usize
                } else {
                    0usize
                })
                &&& final(context).txt_input@ == old(context).scroll_items@[final(context).scroll_back as int]@
                &&& final(context).cursor_pos == final(context).txt_input@.len()
                &&& final(context).gui_dirty
            },
            InputKey::Other => *final(context) == *old(context),
        },
{
    match key {
        InputKey::Char(c) => {
            context.gui_dirty = true;
            insert_any(&mut context.txt_input, context.cursor_pos, c);
            context.cursor_pos = context.cursor_pos + 1;
        },
        InputKey::Left => {
            context.cursor_pos = if context.cursor_pos > 0 {
                context.cursor_pos - 1
            } else {
                0
            };
        },
        InputKey::Right => {
            context.cursor_pos = if context.cursor_pos < get_len_any(&context.txt_input) {
                context.cursor_pos + 1
            } else {
                get_len_any(&context.txt_input)
            };
        },
        InputKey::Home => {
            context.cursor_pos = 0;
        },
        InputKey::End => {
            context.cursor_pos = get_len_any(&context.txt_input);
        },
        InputKey::Esc => {
            context.gui_dirty = true;
            context.txt_input = Vec::new();
            context.cursor_pos = 0;
            context.scroll_back = 0;
        },
        InputKey::Backspace => {
            context.gui_dirty = true;
            if context.cursor_pos > 0 {
                remote_any(&mut context.txt_input, context.cursor_pos - 1);
                context.cursor_pos = if context.cursor_pos < get_len_any(&context.txt_input) {
                    context.cursor_pos - 1
                } else {
                    get_len_any(&context.txt_input)
                };
            }
        },
        InputKey::Up => {
            context.scroll_back = if context.scroll_back < 1 {
                context.scroll_items.len() - 1
            } else {
                context.scroll_back - 1
            };
            let scroll_item = context.scroll_items[context.scroll_back].clone();
            set_txt_input(context, scroll_item);
        },
        InputKey::Down => {
            context.scroll_back = if context.scroll_back < context.scroll_items.len() - 1 {
                context.scroll_back + 1
            } else {
                0
            };
            let scroll_item = context.scroll_items[context.scroll_back].clone();
            set_txt_input(context, scroll_item);
        },
        InputKey::Other => {},
    }
}

} // verus!
