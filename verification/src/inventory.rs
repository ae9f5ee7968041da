//! The hotbar: nine slots of placeable blocks, chosen with the digit keys
//! 1-9 or cycled with the scroll wheel.
use vstd::prelude::*;
use crate::block::BlockType;
use crate::interaction::SelectedBlock;

verus! {

/// Number of hotbar slots.
pub const HOTBAR_SLOTS: usize = 9;

/// The block in hotbar slot `i` (slot 0 is key 1).
pub open spec fn hotbar_block_of(i: int) -> BlockType {
    if i == 0 {
        BlockType::Stone
    } else if i == 1 {
        BlockType::Dirt
    } else if i == 2 {
        BlockType::Grass
    } else if i == 3 {
        BlockType::Sand
    } else if i == 4 {
        BlockType::Wood
    } else if i == 5 {
        BlockType::Cobblestone
    } else if i == 6 {
        BlockType::Planks
    } else if i == 7 {
        BlockType::Glass
    } else {
        BlockType::Leaves
    }
}

/// The block in hotbar slot `i`.
pub fn hotbar_block(i: usize) -> (r: BlockType)
    requires
        i < HOTBAR_SLOTS,
    ensures
        r == hotbar_block_of(i as int),
{
    if i == 0 {
        BlockType::Stone
    } else if i == 1 {
        BlockType::Dirt
    } else if i == 2 {
        BlockType::Grass
    } else if i == 3 {
        BlockType::Sand
    } else if i == 4 {
        BlockType::Wood
    } else if i == 5 {
        BlockType::Cobblestone
    } else if i == 6 {
        BlockType::Planks
    } else if i == 7 {
        BlockType::Glass
    } else {
        BlockType::Leaves
    }
}

/// The selected hotbar slot.
pub struct Hotbar {
    pub selected: usize,
}

impl Default for Hotbar {
    fn default() -> (r: Self)
        ensures
            r.selected == 0,
    {
        Hotbar { selected: 0 }
    }
}

/// The slot after the digit keys of one frame: the last pressed key wins.
pub open spec fn after_digits(sel: usize, pressed: Seq<bool>, n: int) -> usize
    decreases n,
{
    if n <= 0 {
        sel
    } else if pressed[n - 1] {
        (n - 1) as usize
    } else {
        after_digits(sel, pressed, n - 1)
    }
}

/// The slot after one scroll step: up moves right, down moves left, wrapping
/// around the nine slots. The slot is read as an `i32` first.
pub open spec fn after_scroll(sel: usize, up: bool) -> usize {
    (((sel as i32) as int + (if up { 1int } else { -1int })) % 9) as usize
}

/// The slot after the first `n` scroll steps.
pub open spec fn after_scrolls(sel: usize, ups: Seq<bool>, n: int) -> usize
    decreases n,
{
    if n <= 0 {
        sel
    } else {
        after_scroll(after_scrolls(sel, ups, n - 1), ups[n - 1])
    }
}

/// True when the first scroll step does not overflow the `i32` slot number.
pub open spec fn scroll_fits(sel: usize, ups: Seq<bool>) -> bool {
    ups.len() > 0 ==> {
        let s = (sel as i32) as int;
        if ups[0] {
            s < i32::MAX
        } else {
            s > i32::MIN
        }
    }
}

/// Applies one frame of hotbar input: `pressed[i]` says whether digit key
/// `i + 1` was just pressed, and `scroll_ups` lists the scroll events in order,
/// each `true` when it scrolled up.
pub fn handle_hotbar_input(hotbar: &mut Hotbar, pressed: &[bool; 9], scroll_ups: &Vec<bool>)
    requires
        scroll_fits(after_digits(old(hotbar).selected, pressed@, 9), scroll_ups@),
    ensures
        final(hotbar).selected == after_scrolls(
            after_digits(old(hotbar).selected, pressed@, 9),
            scroll_ups@,
            scroll_ups@.len() as int,
        ),
{
    let mut i: usize = 0;
    while i < 9
        invariant
            i <= 9,
            hotbar.selected == after_digits(old(hotbar).selected, pressed@, i as int),
        decreases 9 - i,
    {
        if pressed[i] {
            hotbar.selected = i;
        }
        i = i + 1;
    }
    let ghost start = hotbar.selected;
    let mut j: usize = 0;
    while j < scroll_ups.len()
        invariant
            j <= scroll_ups@.len(),
            scroll_fits(start, scroll_ups@),
            hotbar.selected == after_scrolls(start, scroll_ups@, j as int),
            j > 0 ==> hotbar.selected < 9,
        decreases scroll_ups@.len() - j,
    {
        let delta: i32 = if scroll_ups[j] { 1 } else { -1 };
        let s = #[verifier::truncate] (hotbar.selected as i32);
        assert(j > 0 ==> s == hotbar.selected);
        let v = (s + delta).checked_rem_euclid(9).unwrap();
        hotbar.selected = v as usize;
        j = j + 1;
    }
}

/// The selected block follows the selected hotbar slot.
pub fn sync_selected_block(hotbar: &Hotbar, selected: &mut SelectedBlock)
    requires
        hotbar.selected < HOTBAR_SLOTS,
    ensures
        final(selected).0 == hotbar_block_of(hotbar.selected as int),
{
    selected.0 = hotbar_block(hotbar.selected);
}

/// The slot stays one of the nine slots: every scroll step lands in 0..9, and
/// so does any digit key; a slot in 0..9 stays there.
pub proof fn lemma_hotbar_in_range(sel: usize, pressed: Seq<bool>, ups: Seq<bool>, n: int)
    requires
        pressed.len() == 9,
        0 <= n <= ups.len(),
    ensures
        (sel < 9 || exists|i: int| 0 <= i < 9 && pressed[i]) ==> after_digits(sel, pressed, 9) < 9,
        n > 0 ==> after_scrolls(sel, ups, n) < 9,
        sel < 9 ==> after_scrolls(sel, ups, n) < 9,
    decreases n,
{
    lemma_digits_in_range(sel, pressed, 9);
    if n > 0 {
        lemma_hotbar_in_range(sel, pressed, ups, n - 1);
    }
}

proof fn lemma_digits_in_range(sel: usize, pressed: Seq<bool>, n: int)
    requires
        0 <= n <= 9,
        pressed.len() == 9,
    ensures
        (sel < 9 || exists|i: int| 0 <= i < n && pressed[i]) ==> after_digits(sel, pressed, n) < 9,
    decreases n,
{
    if n > 0 {
        lemma_digits_in_range(sel, pressed, n - 1);
    }
}

} // verus!
