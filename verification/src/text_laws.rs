//! Texts, unit by unit, and paths, name by name.

use crate::paths::{names, names_from};
use crate::text::{encode_utf16, utf16_units, white_space};
use vstd::prelude::*;

verus! {

/// UTF-16 has one unit for a character of the first plane, which is its number, and two for any
/// other, which together make up its number. Texts are encoded character by character.
pub proof fn lemma_utf16_units(text: Seq<char>, c: char)
    ensures
        encode_utf16(Seq::empty()) == Seq::<u16>::empty(),
        encode_utf16(text.push(c)) == encode_utf16(text) + utf16_units(c),
        (c as u32) < 65536 ==> utf16_units(c).len() == 1 && utf16_units(c)[0] == c as u32,
        (c as u32) >= 65536 ==> {
            let units = utf16_units(c);
            &&& units.len() == 2
            &&& 55296 <= units[0] < 56320
            &&& 56320 <= units[1] < 57344
            &&& 65536 + 1024 * (units[0] - 55296) + (units[1] - 56320) == c as u32
        },
{
    assert(text.push(c).drop_last() =~= text);
    assert(c as u32 <= 0x10ffff);
}

/// Which characters are white space.
pub proof fn lemma_white_space(c: char)
    ensures
        white_space(c) <==> (9 <= c as u32 <= 13 || c as u32 == 32 || c as u32 == 133 || c as u32
            == 160 || c as u32 == 5760 || 8192 <= c as u32 <= 8202 || c as u32 == 8232 || c as u32
            == 8233 || c as u32 == 8239 || c as u32 == 8287 || c as u32 == 12288),
{
}

/// An empty name and a single dot lead nowhere, and a slash leads nowhere by itself.
pub proof fn lemma_dots_and_slashes_lead_nowhere(path: Seq<char>)
    ensures
        names(Seq::empty()) == Seq::<Seq<char>>::empty(),
        names(seq!['.']) == Seq::<Seq<char>>::empty(),
        names(path + seq!['/']) == names(path),
        names(seq!['/'] + path) == names(path),
        names(path + seq!['/', '.']) == names(path),
{
    let empty = Seq::<char>::empty();
    assert(names(empty) =~= seq![]);
    let dot = seq!['.'];
    assert(dot.skip(1) =~= empty);
    assert(empty.push('.') =~= dot);
    assert(names_from(dot, empty, seq![]) == names_from(dot.skip(1), empty.push('.'), seq![]));
    assert(names(dot) =~= seq![]);
    crate::paths::lemma_names_join(path, empty);
    assert(path + seq!['/'] + empty =~= path + seq!['/']);
    crate::paths::lemma_names_join(empty, path);
    assert(empty + seq!['/'] + path =~= seq!['/'] + path);
    crate::paths::lemma_names_join(path, dot);
    assert(path + seq!['/'] + dot =~= path + seq!['/', '.']);
    assert(names(path) + Seq::<Seq<char>>::empty() =~= names(path));
    assert(Seq::<Seq<char>>::empty() + names(path) =~= names(path));
}

} // verus!
