pub mod config;
pub mod decor;
pub mod entry;
pub mod format;
pub mod order;
pub mod pattern;
pub mod render;
pub mod strutil;
pub mod traverse;
pub mod tree;

use vstd::prelude::*;

verus! {

/// Tests whether a file name denotes a hidden entry: one whose name
/// begins with the hidden-file marker `.`.
pub fn is_hidden(name: &str) -> (r: bool)
    ensures
        r == (name@.len() > 0 && name@[0] == '.'),
{
    let n = name.unicode_len();
    if n == 0 {
        false
    } else {
        name.get_char(0) == '.'
    }
}

} // verus!
