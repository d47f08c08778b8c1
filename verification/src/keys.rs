//! Keyboard maps.
use vstd::prelude::*;

verus! {

/// The keysyms of each key, one row of `syms_per_code` behind the other, from key `min_keycode` on.
#[derive(Debug)]
pub struct KeyMap {
    pub min_keycode: u8,
    pub syms_per_code: usize,
    pub keysyms: Vec<u32>,
}

/// The keysym of a key, with or without shift; 0 where the map has none. A row of one keysym has
/// the same with shift.
pub open spec fn keysym_of(keycode: u8, shift: bool, m: KeyMap) -> u32 {
    let at = (keycode - m.min_keycode) * m.syms_per_code + if shift && m.syms_per_code > 1 {
        1int
    } else {
        0
    };
    if keycode >= m.min_keycode && at < m.keysyms@.len() {
        m.keysyms@[at]
    } else {
        0
    }
}

pub fn keycode_to_keysym(keycode: u8, shift: bool, keymap: &KeyMap) -> (r: u32)
    requires
        keymap.syms_per_code * 256 <= usize::MAX,
    ensures
        r == keysym_of(keycode, shift, *keymap),
{
    if keycode < keymap.min_keycode {
        return 0;
    }
    let row = (keycode - keymap.min_keycode) as usize;
    proof {
        let n = keymap.syms_per_code as int;
        assert(0 <= row * n && row * n + n <= n * 256) by (nonlinear_arith)
            requires
                0 <= row <= 255,
                0 <= n,
        ;
    }
    let base = row * keymap.syms_per_code;
    let idx = base + if shift && keymap.syms_per_code > 1 {
        1
    } else {
        0
    };
    if idx < keymap.keysyms.len() {
        keymap.keysyms[idx]
    } else {
        0
    }
}

/// A key has its row of symbols: without shift it gives the first, with shift the second where the
/// rows have one, and a key outside the map gives none.
pub proof fn law_key_gives_a_symbol_of_its_row(keycode: u8, m: KeyMap, row: int)
    requires
        m.syms_per_code >= 1,
        keycode >= m.min_keycode,
        row == keycode - m.min_keycode,
        (row + 1) * m.syms_per_code <= m.keysyms@.len(),
    ensures
        keysym_of(keycode, false, m) == m.keysyms@[row * m.syms_per_code],
        m.syms_per_code > 1 ==> keysym_of(keycode, true, m) == m.keysyms@[row * m.syms_per_code + 1],
        m.syms_per_code == 1 ==> keysym_of(keycode, true, m) == keysym_of(keycode, false, m),
{
    assert((row + 1) * m.syms_per_code == row * m.syms_per_code + m.syms_per_code && 0 <= row
        * m.syms_per_code) by (nonlinear_arith)
        requires
            row >= 0,
            m.syms_per_code >= 0,
    ;
}

/// A key before the first of the map, or behind its last row, gives no symbol.
pub proof fn law_key_outside_the_map_gives_none(keycode: u8, shift: bool, m: KeyMap)
    requires
        keycode < m.min_keycode || (keycode - m.min_keycode) * m.syms_per_code >= m.keysyms@.len(),
    ensures
        keysym_of(keycode, shift, m) == 0,
{
}

} // verus!
