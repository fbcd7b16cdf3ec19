//! The board as text: three rows of three fields between rules, an `X` in
//! the player's fields and an `O` in the opponent's.

use crate::board::{is_cell, Board, Cell, Side};
use vstd::prelude::*;

verus! {

/// `String::push` of the standard library appends the character to the end
/// of the string and leaves the rest as it was.
///
/// Trusted: this is what its documentation says; nothing here proves it.
pub assume_specification[ String::push ](s: &mut String, ch: char)
    ensures
        final(s)@ == old(s)@.push(ch),
;

/// The number of bytes that `c` takes in UTF-8.
pub open spec fn utf8_width(c: char) -> nat {
    let u = c as u32;
    if u < 0x80 {
        1
    } else if u < 0x800 {
        2
    } else if u < 0x10000 {
        3
    } else {
        4
    }
}

/// The byte at which the character at place `i` of `text` starts when the
/// text is written in UTF-8.
pub open spec fn byte_offset(text: Seq<char>, i: int) -> nat
    decreases i,
{
    if i <= 0 {
        0
    } else {
        byte_offset(text, i - 1) + utf8_width(text[i - 1])
    }
}

/// `text` with `c` in place of the character that starts at byte `idx`,
/// and unchanged where no character starts there.
pub open spec fn replaced_at(text: Seq<char>, idx: int, c: char) -> Seq<char> {
    Seq::new(
        text.len(),
        |i: int|
            if byte_offset(text, i) == idx {
                c
            } else {
                text[i]
            },
    )
}

/// The offset of a character does not depend on what follows it.
proof fn lemma_byte_offset_prefix(text: Seq<char>, n: int, i: int)
    requires
        0 <= i <= n <= text.len(),
    ensures
        byte_offset(text.take(n), i) == byte_offset(text, i),
    decreases i,
{
    if i > 0 {
        lemma_byte_offset_prefix(text, n, i - 1);
    }
}

/// Dropping the first character moves every later one up by its width.
proof fn lemma_byte_offset_shift(text: Seq<char>, i: int)
    requires
        0 <= i < text.len(),
    ensures
        byte_offset(text, i + 1) == utf8_width(text[0]) + byte_offset(text.drop_first(), i),
    decreases i,
{
    assert(byte_offset(text, i + 1) == byte_offset(text, i) + utf8_width(text[i]));
    if i > 0 {
        lemma_byte_offset_shift(text, i - 1);
        assert(text.drop_first()[i - 1] == text[i]);
    } else {
        assert(byte_offset(text, 0) == 0);
    }
}

/// A character starts where the UTF-8 encoding of the text before it ends.
pub proof fn lemma_byte_offset_encoded(text: Seq<char>, i: int)
    requires
        0 <= i <= text.len(),
    ensures
        byte_offset(text, i) == vstd::utf8::encode_utf8(text.take(i)).len(),
    decreases i,
{
    let before = text.take(i);
    lemma_byte_offset_prefix(text, i, i);
    if i > 0 {
        vstd::utf8::char_is_scalar(before[0]);
        lemma_byte_offset_shift(before, i - 1);
        lemma_byte_offset_encoded(before.drop_first(), i - 1);
        assert(before.drop_first().take(i - 1) == before.drop_first());
    }
}

/// The number of bytes that `c` takes in UTF-8.
fn width_of(c: char) -> (width: usize)
    ensures
        width == utf8_width(c),
{
    let u: u32 = c as u32;
    if u < 0x80 {
        1
    } else if u < 0x800 {
        2
    } else if u < 0x10000 {
        3
    } else {
        4
    }
}

/// A copy of `s` in which the character that starts at byte `idx` is
/// replaced by `c`.
pub fn replace_char_at(s: &str, idx: u8, c: char) -> (r: String)
    ensures
        r@ == replaced_at(s@, idx as int, c),
{
    let mut r = String::new();
    // Where the next character starts; from 256 on, only that it is past
    // every place that `idx` can name.
    let mut offset: usize = 0;
    for d in it: s.chars()
        invariant
            it.seq() == s@,
            r@ == replaced_at(s@, idx as int, c).take(it.index()),
            offset <= 259,
            offset <= 255 ==> offset == byte_offset(s@, it.index()),
            offset > 255 ==> byte_offset(s@, it.index()) > 255,
    {
        let ghost i = it.index();
        r.push(
            if offset == idx as usize {
                c
            } else {
                d
            },
        );
        if offset <= 255 {
            offset = offset + width_of(d);
        }
        proof {
            assert(d == s@[i]);
            assert(byte_offset(s@, i + 1) == byte_offset(s@, i) + utf8_width(s@[i]));
            assert(replaced_at(s@, idx as int, c).take(i + 1) == replaced_at(
                s@,
                idx as int,
                c,
            ).take(i).push(replaced_at(s@, idx as int, c)[i]));
        }
    }
    proof {
        assert(replaced_at(s@, idx as int, c).take(s@.len() as int) == replaced_at(
            s@,
            idx as int,
            c,
        ));
    }
    r
}

/// Whether every character of `text` takes one byte in UTF-8.
pub open spec fn single_bytes(text: Seq<char>) -> bool {
    forall|i: int| 0 <= i < text.len() ==> utf8_width(#[trigger] text[i]) == 1
}

/// In a text of one-byte characters each character starts at the byte of
/// its own place.
pub proof fn lemma_single_bytes_offset(text: Seq<char>, i: int)
    requires
        single_bytes(text),
        0 <= i <= text.len(),
    ensures
        byte_offset(text, i) == i,
    decreases i,
{
    if i > 0 {
        lemma_single_bytes_offset(text, i - 1);
    }
}

/// In a text of one-byte characters a replacement changes just the
/// character at the place named, and leaves a text of one-byte characters
/// if the new character is one.
pub proof fn lemma_single_bytes_replaced(text: Seq<char>, idx: int, c: char)
    requires
        single_bytes(text),
        0 <= idx < text.len(),
    ensures
        replaced_at(text, idx, c) == text.update(idx, c),
        utf8_width(c) == 1 ==> single_bytes(replaced_at(text, idx, c)),
{
    assert forall|i: int| 0 <= i < text.len() implies replaced_at(text, idx, c)[i] == text.update(
        idx,
        c,
    )[i] by {
        lemma_single_bytes_offset(text, i);
    }
}

/// The board with nothing on it.
pub open spec fn blank_board() -> Seq<char> {
    "   |   |  \n-----------\n   |   |  \n-----------\n   |   |  "@
}

/// The place in the text of the field that shows `cell`.
pub open spec fn field_of(cell: int) -> int {
    23 * ((cell - 1) / 3) + 4 * ((cell - 1) % 3) + 1
}

/// The character that shows the state of a cell.
pub open spec fn glyph(state: Cell) -> char {
    match state {
        None => ' ',
        Some(Side::Player) => 'X',
        Some(Side::Opponent) => 'O',
    }
}

/// The blank board with the states of the first `n` cells written into
/// their fields.
pub open spec fn rendering_of(cells: Seq<Cell>, n: nat) -> Seq<char>
    decreases n,
{
    if n == 0 {
        blank_board()
    } else {
        rendering_of(cells, (n - 1) as nat).update(field_of(n as int), glyph(cells[n - 1]))
    }
}

/// The text that shows a board.
pub open spec fn rendering(cells: Seq<Cell>) -> Seq<char> {
    rendering_of(cells, 9)
}

/// Each cell has a field of its own on the board.
proof fn lemma_fields(a: int, b: int)
    requires
        is_cell(a),
        is_cell(b),
        a != b,
    ensures
        0 <= field_of(a) < 56,
        field_of(a) != field_of(b),
{
}

/// What the text shows once the first `n` cells are written into it.
proof fn lemma_rendering_of(cells: Seq<Cell>, n: nat)
    requires
        n <= 9,
    ensures
        rendering_of(cells, n).len() == 56,
        forall|cell: int|
            1 <= cell <= n ==> rendering_of(cells, n)[#[trigger] field_of(cell)] == glyph(
                cells[cell - 1],
            ),
        forall|i: int|
            0 <= i < 56 && (forall|cell: int| 1 <= cell <= n ==> #[trigger] field_of(cell) != i)
                ==> #[trigger] rendering_of(cells, n)[i] == blank_board()[i],
    decreases n,
{
    if n == 0 {
        reveal_strlit("   |   |  \n-----------\n   |   |  \n-----------\n   |   |  ");
    } else {
        let earlier = rendering_of(cells, (n - 1) as nat);
        let text = rendering_of(cells, n);
        lemma_rendering_of(cells, (n - 1) as nat);
        lemma_fields(n as int, if n == 1 { 2 } else { 1 });
        assert forall|cell: int| 1 <= cell <= n implies text[#[trigger] field_of(cell)] == glyph(
            cells[cell - 1],
        ) by {
            if cell < n {
                lemma_fields(cell, n as int);
            }
        }
        assert forall|i: int|
            0 <= i < 56 && (forall|cell: int|
                1 <= cell <= n ==> #[trigger] field_of(cell) != i) implies #[trigger] text[i]
            == blank_board()[i] by {
            assert(field_of(n as int) != i);
            assert(text[i] == earlier[i]);
        }
    }
}

/// What the text of a board shows: in the field of each cell the character
/// for its state, and everywhere else the blank board.
pub proof fn lemma_rendering(cells: Seq<Cell>)
    ensures
        rendering(cells).len() == 56,
        forall|cell: int|
            is_cell(cell) ==> rendering(cells)[#[trigger] field_of(cell)] == glyph(cells[cell - 1]),
        forall|i: int|
            0 <= i < 56 && (forall|cell: int| is_cell(cell) ==> #[trigger] field_of(cell) != i)
                ==> #[trigger] rendering(cells)[i] == blank_board()[i],
{
    lemma_rendering_of(cells, 9);
}

/// The place in the text of the field that shows `cell`, and 0 for what is
/// no cell.
pub fn field_index(cell: u8) -> (index: u8)
    ensures
        index == if is_cell(cell as int) {
            field_of(cell as int)
        } else {
            0
        },
{
    match cell {
        1 => 1,
        2 => 5,
        3 => 9,
        4 => 24,
        5 => 28,
        6 => 32,
        7 => 47,
        8 => 51,
        9 => 55,
        _ => 0,
    }
}

/// The text that shows `board`.
pub fn render(board: &Board) -> (text: String)
    ensures
        text@ == rendering(board@),
{
    let blank = "   |   |  \n-----------\n   |   |  \n-----------\n   |   |  ";
    proof {
        reveal_strlit("   |   |  \n-----------\n   |   |  \n-----------\n   |   |  ");
        board.lemma_nine_cells();
        assert(single_bytes(blank@));
    }
    let mut text = blank.to_owned();
    let mut cell: u8 = 1;
    while cell <= 9
        invariant
            1 <= cell <= 10,
            text@ == rendering_of(board@, (cell - 1) as nat),
            text@.len() == 56,
            single_bytes(text@),
        decreases 10 - cell,
    {
        let mark: char = match board.get(cell) {
            None => ' ',
            Some(Side::Player) => 'X',
            Some(Side::Opponent) => 'O',
        };
        proof {
            lemma_single_bytes_replaced(text@, field_of(cell as int), mark);
        }
        text = replace_char_at(text.as_str(), field_index(cell), mark);
        cell = cell + 1;
    }
    text
}

} // verus!
