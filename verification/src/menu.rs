//! The lines of a menu and the choice that a key makes in it.

use vstd::prelude::*;
use crate::object::{arena, Object, ObjectView};
use crate::text::char_to_string;

verus! {

/// Most options that a menu can label with a letter.
pub const MENU_LETTERS: usize = 26;

/// Most options that a menu can label at all: past the letters the labels
/// run on through the characters that follow them.
pub const MENU_LABELS: usize = 159;

/// The place in the alphabet of the letter `key`, counted from zero, for
/// a letter from `a` to `z` in either case.
pub open spec fn letter_index(key: char) -> Option<int> {
    if 'a' as int <= key as int <= 'z' as int {
        Some(key as int - 'a' as int)
    } else if 'A' as int <= key as int <= 'Z' as int {
        Some(key as int - 'A' as int)
    } else {
        None
    }
}

/// The option that `key` picks in a menu of `count` options: the one its
/// letter labels, if there is one.
pub open spec fn chosen(key: char, count: usize) -> Option<usize> {
    match letter_index(key) {
        Some(i) => if i < count {
            Some(i as usize)
        } else {
            None
        },
        None => None,
    }
}

/// Finds the option that `key` picks in a menu of `count` options.
pub fn menu_choice(key: char, count: usize) -> (r: Option<usize>)
    ensures
        r == chosen(key, count),
{
    let code: u32 = key as u32;
    let index: usize = if 97 <= code && code <= 122 {
        (code - 97) as usize
    } else if 65 <= code && code <= 90 {
        (code - 65) as usize
    } else {
        return None;
    };
    if index < count {
        Some(index)
    } else {
        None
    }
}

/// The character that labels option `index`: the letters from `a` on for
/// the first twenty-six options.
pub open spec fn letter_of(index: int) -> char {
    (index + 'a' as int) as char
}

/// The line of option `index` with the text `text`: its letter in
/// brackets, a blank, the text.
pub open spec fn option_line(index: int, text: Seq<char>) -> Seq<char> {
    seq!['(', letter_of(index), ')', ' '] + text
}

/// Writes the line of option `index`.
pub fn menu_line(index: usize, text: &str) -> (s: String)
    requires
        index < MENU_LABELS,
    ensures
        s@ == option_line(index as int, text@),
{
    let letter: char = (97u8 + index as u8) as char;
    proof {
        reveal_strlit("(");
        reveal_strlit(") ");
    }
    let mut s = String::from_str("(");
    s.append(char_to_string(letter).as_str());
    s.append(") ");
    s.append(text);
    assert(s@ =~= option_line(index as int, text@));
    s
}

/// The options of the inventory menu: the names of the entries, or one
/// line that says that there is none.
pub open spec fn inventory_lines(inventory: Seq<ObjectView>) -> Seq<Seq<char>> {
    if inventory.len() == 0 {
        seq!["Inventorio vazio."@]
    } else {
        Seq::new(inventory.len(), |i: int| inventory[i].name)
    }
}

/// Lists the options of the inventory menu.
pub fn inventory_options(inventory: &Vec<Object>) -> (options: Vec<String>)
    ensures
        crate::text::texts(options@) == inventory_lines(arena(inventory@)),
{
    let mut options: Vec<String> = Vec::new();
    if inventory.len() == 0 {
        options.push(String::from_str("Inventorio vazio."));
        assert(crate::text::texts(options@) =~= inventory_lines(arena(inventory@)));
        return options;
    }
    let mut i: usize = 0;
    while i < inventory.len()
        invariant
            i <= inventory@.len(),
            options@.len() == i,
            forall|k: int| 0 <= k < i ==> (#[trigger] options@[k])@ == inventory@[k].name@,
        decreases inventory@.len() - i,
    {
        options.push(inventory[i].name.clone());
        i = i + 1;
    }
    assert(crate::text::texts(options@) =~= inventory_lines(arena(inventory@)));
    options
}

/// The entry that `key` picks in the inventory menu: none from an empty
/// inventory, whose one line is no entry.
pub open spec fn inventory_pick(key: char, entries: usize) -> Option<usize> {
    if entries > 0 {
        chosen(key, entries)
    } else {
        None
    }
}

/// Finds the entry that `key` picks in the menu of `inventory`.
pub fn inventory_choice(key: char, inventory: &Vec<Object>) -> (r: Option<usize>)
    ensures
        r == inventory_pick(key, inventory@.len() as usize),
        r matches Some(i) ==> i < inventory@.len(),
{
    if inventory.len() > 0 {
        menu_choice(key, inventory.len())
    } else {
        None
    }
}

} // verus!
