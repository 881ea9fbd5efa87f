//! The wallpaper picker: a ring of cards of which one is selected, and what
//! keys, the pointer and the compositor do to it.

use std::collections::HashMap;
use vstd::arithmetic::div_mod::{
    lemma_add_mod_noop_right, lemma_mod_add_multiples_vanish, lemma_mod_multiples_vanish,
    lemma_mod_self_0, lemma_mod_sub_multiples_vanish, lemma_small_mod,
};
use vstd::prelude::*;
use vstd::std_specs::iter::IteratorSpec;
use vstd::utf8::*;

use crate::catalog::{entry_views, EntryView, WallpaperEntry};
use crate::frame::{at_least_one, frame_fits, pixel_side, plan_of, row_fits, surface_fits};
use crate::frame::{lemma_side_grows_with_the_scale, lemma_surface_fits_by_its_pixels};
use crate::frame::{fits_row, fits_surface, plan_frame, FramePlan};
use crate::path::{components, file_stem, path_view, FilePath};
use crate::text::{decimal, decimal_text, decimal_value, lossy_text, to_text_lossy};
use crate::text::{lemma_decimal_spells_the_number, lemma_encoded_text_is_shown_as_it_is};
use crate::thumbnails::{after_load, is_cache, no_thumbnails, CacheView};
use crate::thumbnails::{Thumbnail, Thumbnails};

verus! {

/// The key that selects the card before.
pub const KEY_LEFT: u32 = 105;

/// The key that selects the card after.
pub const KEY_RIGHT: u32 = 106;

/// The key that takes the selected card.
pub const KEY_ENTER: u32 = 28;

/// The key that closes the picker.
pub const KEY_ESCAPE: u32 = 1;

/// The pointer's left button.
pub const BUTTON_LEFT: u32 = 272;

/// How many cards are in view on either side of the selected one.
pub const CARDS_IN_VIEW: i128 = 2;

/// A step along the ring of cards.
#[derive(Debug, Clone, Copy, PartialEq, Eq, Structural)]
pub enum Step {
    Back,
    Forward,
}

/// A step as a number.
pub open spec fn step_of(step: Step) -> int {
    match step {
        Step::Back => -1,
        Step::Forward => 1,
    }
}

/// The wallpaper that is shown while the picker opens: its path as the daemon
/// told it, and as the file system resolves it, where it does.
#[derive(Debug)]
pub struct CurrentWallpaper {
    pub path: FilePath,
    pub canonical: Option<FilePath>,
}

/// The scale factors that the outputs told, and the highest of them.
#[derive(Debug)]
struct OutputScales {
    factors: HashMap<u32, i32>,
    highest: i32,
}

/// The picker.
#[derive(Debug)]
pub struct Picker {
    entries: Vec<WallpaperEntry>,
    selected: usize,
    confirmed: Option<usize>,
    closed: bool,
    frame_dirty: bool,
    animating: bool,
    width: u32,
    height: u32,
    has_pointer: bool,
    has_keyboard: bool,
    thumbnails: Thumbnails,
    scales: OutputScales,
}

/// What a `Picker` holds.
pub struct PickerView {
    pub entries: Seq<EntryView>,
    pub selected: int,
    pub confirmed: Option<int>,
    pub closed: bool,
    pub frame_dirty: bool,
    pub animating: bool,
    pub width: u32,
    pub height: u32,
    pub has_pointer: bool,
    pub has_keyboard: bool,
    pub thumbnails: CacheView,
    pub output_scales: Map<u32, i32>,
    pub output_scale: i32,
}

impl View for Picker {
    type V = PickerView;

    closed spec fn view(&self) -> PickerView {
        PickerView {
            entries: entry_views(self.entries@),
            selected: self.selected as int,
            confirmed: match self.confirmed {
                Some(index) => Some(index as int),
                None => None,
            },
            closed: self.closed,
            frame_dirty: self.frame_dirty,
            animating: self.animating,
            width: self.width,
            height: self.height,
            has_pointer: self.has_pointer,
            has_keyboard: self.has_keyboard,
            thumbnails: self.thumbnails@,
            output_scales: self.scales.factors@,
            output_scale: self.scales.highest,
        }
    }
}

/// Whether `highest` is the highest of the outputs' scale factors; one where
/// no output has told its own.
pub open spec fn is_highest(scales: Map<u32, i32>, highest: i32) -> bool {
    &&& scales == Map::<u32, i32>::empty() ==> highest == 1
    &&& scales != Map::<u32, i32>::empty() ==> scales.values().contains(highest)
    &&& forall|scale: i32| #[trigger] scales.values().contains(scale) ==> scale <= highest
}

/// Whether `highest` is the highest of scale factors that are all at least one.
pub open spec fn are_scales(scales: Map<u32, i32>, highest: i32) -> bool {
    &&& is_highest(scales, highest)
    &&& forall|scale: i32| #[trigger] scales.values().contains(scale) ==> scale >= 1
}

/// Whether a picker is in order: it has cards, those that it points at are
/// there, each has a place for its thumbnail, and it is painted at the highest
/// of the outputs' scale factors, which are all at least one.
pub open spec fn is_picker(picker: PickerView) -> bool {
    &&& 0 <= picker.selected < picker.entries.len()
    &&& picker.entries.len() <= usize::MAX
    &&& picker.confirmed matches Some(index) ==> 0 <= index < picker.entries.len()
    &&& picker.thumbnails.slots.len() == picker.entries.len()
    &&& is_cache(picker.thumbnails)
    &&& are_scales(picker.output_scales, picker.output_scale)
}

/// Whether a card's path leads to the wallpaper that is shown: the two have
/// the same components as they stand, or once the file system has resolved
/// both.
pub open spec fn leads_to(
    entry: Seq<char>,
    resolved: Option<Seq<u8>>,
    current: CurrentWallpaper,
) -> bool {
    ||| components(encode_utf8(entry)) == components(current.path@)
    ||| resolved is Some && current.canonical is Some && components(resolved->0) == components(
        current.canonical->0@,
    )
}

/// Whether the card at `index` is the one that the picker opens at: the first
/// that leads to the wallpaper that is shown, or where none does, the first of
/// all.
pub open spec fn opens_at(
    entries: Seq<EntryView>,
    resolved: Seq<Option<FilePath>>,
    current: Option<CurrentWallpaper>,
    index: int,
) -> bool {
    match current {
        Some(shown) => {
            ||| 0 <= index < entries.len() && leads_to(
                entries[index].path,
                path_view(resolved[index]),
                shown,
            ) && forall|i: int|
                0 <= i < index ==> !leads_to(
                    (#[trigger] entries[i]).path,
                    path_view(resolved[i]),
                    shown,
                )
            ||| index == 0 && forall|i: int|
                0 <= i < entries.len() ==> !leads_to(
                    (#[trigger] entries[i]).path,
                    path_view(resolved[i]),
                    shown,
                )
        },
        None => index == 0,
    }
}

/// The picker as it opens at a card.
pub open spec fn opened(entries: Seq<EntryView>, selected: int) -> PickerView {
    PickerView {
        entries,
        selected,
        confirmed: None,
        closed: false,
        frame_dirty: true,
        animating: false,
        width: 0,
        height: 0,
        has_pointer: false,
        has_keyboard: false,
        thumbnails: no_thumbnails(entries.len()),
        output_scales: Map::empty(),
        output_scale: 1,
    }
}

/// The picker after a step: the next card of the ring is selected, and the
/// carousel moves towards it. A ring of one card does not move.
pub open spec fn stepped(picker: PickerView, step: Step) -> PickerView {
    if picker.entries.len() < 2 {
        picker
    } else {
        PickerView {
            selected: (picker.selected + step_of(step)) % (picker.entries.len() as int),
            animating: true,
            frame_dirty: true,
            ..picker
        }
    }
}

/// The step that a key asks for.
pub open spec fn step_of_key(key: u32) -> Option<Step> {
    if key == KEY_LEFT {
        Some(Step::Back)
    } else if key == KEY_RIGHT {
        Some(Step::Forward)
    } else {
        None
    }
}

/// The picker after a key was pressed.
pub open spec fn after_key(picker: PickerView, key: u32) -> PickerView {
    if step_of_key(key) is Some {
        PickerView { frame_dirty: true, ..stepped(picker, step_of_key(key)->0) }
    } else if key == KEY_ENTER {
        PickerView { confirmed: Some(picker.selected), frame_dirty: true, ..picker }
    } else if key == KEY_ESCAPE {
        PickerView { closed: true, frame_dirty: true, ..picker }
    } else {
        picker
    }
}

/// The step that the pointer's wheel asks for: down goes back, up goes on.
pub open spec fn step_of_wheel(turn: int) -> Option<Step> {
    if turn > 0 {
        Some(Step::Back)
    } else if turn < 0 {
        Some(Step::Forward)
    } else {
        None
    }
}

/// The picker after the pointer's wheel was turned.
pub open spec fn after_wheel(picker: PickerView, turn: int) -> PickerView {
    match step_of_wheel(turn) {
        Some(step) => PickerView { frame_dirty: true, ..stepped(picker, step) },
        None => PickerView { frame_dirty: true, ..picker },
    }
}

/// Whether the card at `index` is the first under the pointer.
pub open spec fn is_first_hit(hits: Seq<bool>, index: int) -> bool {
    &&& 0 <= index < hits.len()
    &&& hits[index]
    &&& forall|i: int| 0 <= i < index ==> !#[trigger] hits[i]
}

/// Whether the picker after a click is as it should be: where a card is under
/// the pointer, the first such card is selected and taken.
pub open spec fn after_click(picker: PickerView, hits: Seq<bool>, after: PickerView) -> bool {
    if hits.contains(true) {
        exists|index: int| #[trigger]
            is_first_hit(hits, index) && after == (PickerView {
                selected: index,
                confirmed: Some(index),
                ..picker
            })
    } else {
        after == picker
    }
}

/// How far the card at `index` stands from the selected one, the short way
/// round the ring.
pub open spec fn ring_offset(count: int, selected: int, index: int) -> int {
    let along = index - selected;
    if count > 1 && 2 * along > count {
        along - count
    } else if count > 1 && 2 * along < -count {
        along + count
    } else {
        along
    }
}

/// Whether the card at `index` is in view while the carousel is at rest.
pub open spec fn is_in_view(picker: PickerView, index: int) -> bool {
    let offset = ring_offset(picker.entries.len() as int, picker.selected, index);
    -CARDS_IN_VIEW <= offset <= CARDS_IN_VIEW
}

/// Whether the picker can be asked for its frame: where a row of it can be
/// painted before it is scaled, the scaled frame can be shared with the
/// compositor.
pub open spec fn has_plan(picker: PickerView) -> bool {
    row_fits(pixel_side(picker.width, 1)) ==> surface_fits(
        picker.width,
        picker.height,
        picker.output_scale,
    )
}

/// The text of the counter.
pub open spec fn count_text(picker: PickerView) -> Seq<char> {
    decimal_text((picker.selected + 1) as nat) + " / "@ + decimal_text(picker.entries.len())
}

/// The name that stands under a card: the file's without its extension.
pub open spec fn card_text(path: Seq<char>) -> Seq<char> {
    match file_stem(encode_utf8(path)) {
        Some(stem) => if valid_utf8(stem) {
            decode_utf8(stem)
        } else {
            ""@
        },
        None => ""@,
    }
}

/// The text that tells a user that there is nothing to pick from.
pub open spec fn no_wallpapers_text(directory: Seq<u8>) -> Seq<char> {
    "no wallpapers found in "@ + lossy_text(directory)
}

/// Whether a card's path leads to the wallpaper that is shown. `resolved` is
/// the card's path as the file system resolves it, where it does.
pub fn same_wallpaper(
    entry_path: &str,
    resolved: &Option<FilePath>,
    current: &CurrentWallpaper,
) -> (same: bool)
    ensures
        same == leads_to(entry_path@, path_view(*resolved), *current),
{
    if FilePath::of(entry_path).same_components(&current.path) {
        return true;
    }
    match (resolved, &current.canonical) {
        (Some(a), Some(b)) => a.same_components(b),
        _ => false,
    }
}

/// The card that the picker opens at.
pub fn initial_selection(
    entries: &Vec<WallpaperEntry>,
    resolved: &Vec<Option<FilePath>>,
    current: &Option<CurrentWallpaper>,
) -> (index: usize)
    requires
        resolved@.len() == entries@.len(),
    ensures
        opens_at(entry_views(entries@), resolved@, *current, index as int),
        entries@.len() > 0 ==> index < entries@.len(),
{
    if let Some(shown) = current {
        let mut i: usize = 0;
        while i < entries.len()
            invariant
                i <= entries@.len(),
                resolved@.len() == entries@.len(),
                *current == Some(*shown),
                forall|j: int|
                    0 <= j < i ==> !leads_to(
                        (#[trigger] entry_views(entries@)[j]).path,
                        path_view(resolved@[j]),
                        *shown,
                    ),
            decreases entries@.len() - i,
        {
            assert(entry_views(entries@)[i as int] == entries@[i as int]@);
            if same_wallpaper(entries[i].path.as_str(), &resolved[i], shown) {
                return i;
            }
            i = i + 1;
        }
    }
    0
}

fn highest_scale(scales: &HashMap<u32, i32>) -> (highest: i32)
    requires
        forall|scale: i32| #[trigger] scales@.values().contains(scale) ==> scale >= 1,
    ensures
        is_highest(scales@, highest),
        highest >= 1,
{
    broadcast use vstd::std_specs::hash::group_hash_axioms;

    let mut highest: i32 = 1;
    let ghost all = scales.values().remaining().unref();
    assert(all.to_set() == scales@.values());
    assert forall|i: int| 0 <= i < all.len() implies #[trigger] all[i] >= 1 by {
        assert(all.to_set().contains(all[i]));
    }
    for scale in walk: scales.values()
        invariant
            walk.seq().unref() == all,
            highest >= 1,
            forall|i: int| 0 <= i < all.len() ==> #[trigger] all[i] >= 1,
            forall|i: int| 0 <= i < walk.index() ==> #[trigger] all[i] <= highest,
            walk.index() == 0 ==> highest == 1,
            walk.index() > 0 ==> exists|i: int|
                0 <= i < walk.index() && #[trigger] all[i] == highest,
    {
        assert(*scale == all[walk.index() as int]);
        if *scale > highest {
            highest = *scale;
        }
    }
    assert forall|scale: i32| #[trigger] scales@.values().contains(scale) implies scale
        <= highest by {
        assert(all.to_set().contains(scale));
    }
    assert(all.len() > 0 ==> all.to_set().contains(highest));
    assert(all.len() > 0 ==> scales@ != Map::<u32, i32>::empty()) by {
        assert(all.to_set().contains(all[0]) || all.len() == 0);
    }
    assert(all.len() == 0 ==> scales@ =~= Map::<u32, i32>::empty()) by {
        assert(forall|key: u32| #[trigger]
            scales@.contains_key(key) ==> all.to_set().contains(scales@[key]));
    }
    highest
}

/// The picker after as many steps in one direction.
pub open spec fn stepped_often(picker: PickerView, step: Step, times: nat) -> PickerView
    decreases times,
{
    if times == 0 {
        picker
    } else {
        stepped(stepped_often(picker, step, (times - 1) as nat), step)
    }
}

/// The step in the other direction.
pub open spec fn opposite(step: Step) -> Step {
    match step {
        Step::Back => Step::Forward,
        Step::Forward => Step::Back,
    }
}

proof fn lemma_step_in_ring(count: int, selected: int)
    requires
        0 <= selected < count,
    ensures
        (selected + 1) % count == if selected + 1 == count {
            0
        } else {
            selected + 1
        },
        (selected - 1) % count == if selected == 0 {
            count - 1
        } else {
            selected - 1
        },
{
    if selected + 1 == count {
        lemma_mod_self_0(count);
    } else {
        lemma_small_mod((selected + 1) as nat, count as nat);
    }
    if selected == 0 {
        lemma_mod_add_multiples_vanish(-1, count);
        lemma_small_mod((count - 1) as nat, count as nat);
    } else {
        lemma_small_mod((selected - 1) as nat, count as nat);
    }
}

/// A step and the step back select the card that was selected before.
pub proof fn lemma_step_back_undoes_a_step(picker: PickerView, step: Step)
    requires
        is_picker(picker),
    ensures
        stepped(stepped(picker, step), opposite(step)).selected == picker.selected,
{
    let count = picker.entries.len() as int;
    lemma_step_in_ring(count, picker.selected);
    if count >= 2 {
        lemma_step_in_ring(count, stepped(picker, step).selected);
    }
}

/// Many steps in one direction go that far round the ring.
pub proof fn lemma_steps_add_up(picker: PickerView, step: Step, times: nat)
    requires
        is_picker(picker),
        picker.entries.len() >= 2,
    ensures
        stepped_often(picker, step, times).entries == picker.entries,
        stepped_often(picker, step, times).selected == (picker.selected + step_of(step) * times) % (
        picker.entries.len() as int),
    decreases times,
{
    let count = picker.entries.len() as int;
    if times == 0 {
        lemma_small_mod(picker.selected as nat, count as nat);
        assert(step_of(step) * times == 0);
    } else {
        lemma_steps_add_up(picker, step, (times - 1) as nat);
        let far = picker.selected + step_of(step) * (times - 1);
        assert(far + step_of(step) == picker.selected + step_of(step) * times) by (nonlinear_arith)
            requires
                far == picker.selected + step_of(step) * (times - 1),
        ;
        lemma_add_mod_noop_right(step_of(step), far, count);
    }
}

/// As many steps in one direction as there are cards select the card that was
/// selected before.
pub proof fn lemma_ring_closes(picker: PickerView, step: Step)
    requires
        is_picker(picker),
    ensures
        stepped_often(picker, step, picker.entries.len()).selected == picker.selected,
{
    let count = picker.entries.len() as int;
    if count >= 2 {
        lemma_steps_add_up(picker, step, count as nat);
        lemma_mod_multiples_vanish(
            step_of(step),
            picker.selected,
            count,
        );
        lemma_small_mod(picker.selected as nat, count as nat);
        assert(step_of(step) * count == count * step_of(step)) by (nonlinear_arith);
    } else {
        assert(stepped_often(picker, step, 0) == picker);
    }
}

/// A card's offset leads from the selected card to it along the ring, and no
/// more than half way round.
pub proof fn lemma_offset_is_the_short_way(count: int, selected: int, index: int)
    requires
        0 <= selected < count,
        0 <= index < count,
    ensures
        (selected + ring_offset(count, selected, index)) % count == index,
        -count <= 2 * ring_offset(count, selected, index) <= count,
        ring_offset(count, selected, index) == 0 <==> index == selected,
{
    lemma_small_mod(index as nat, count as nat);
    lemma_mod_add_multiples_vanish(index, count);
    lemma_mod_sub_multiples_vanish(index, count);
}

/// Whatever the user does, the cards stay the same, and those that the picker
/// points at are among them.
pub proof fn lemma_input_keeps_the_cards(
    picker: PickerView,
    key: u32,
    turn: int,
    hits: Seq<bool>,
    clicked: PickerView,
)
    requires
        is_picker(picker),
        hits.len() == picker.entries.len(),
        after_click(picker, hits, clicked),
    ensures
        is_picker(after_key(picker, key)),
        after_key(picker, key).entries == picker.entries,
        is_picker(after_wheel(picker, turn)),
        after_wheel(picker, turn).entries == picker.entries,
        is_picker(clicked),
        clicked.entries == picker.entries,
{
    lemma_step_in_ring(picker.entries.len() as int, picker.selected);
}

/// There is only one highest scale factor.
pub proof fn lemma_highest_is_unique(scales: Map<u32, i32>, one: i32, other: i32)
    requires
        is_highest(scales, one),
        is_highest(scales, other),
    ensures
        one == other,
{
    if scales != Map::<u32, i32>::empty() {
        assert(scales.values().contains(one) && scales.values().contains(other));
    }
}

/// The picker opens at the wallpaper that is shown, where the catalog has it.
pub proof fn lemma_opens_at_the_current_wallpaper(
    entries: Seq<EntryView>,
    resolved: Seq<Option<FilePath>>,
    shown: CurrentWallpaper,
    index: int,
    at: int,
)
    requires
        opens_at(entries, resolved, Some(shown), index),
        0 <= at < entries.len(),
        leads_to(entries[at].path, path_view(resolved[at]), shown),
    ensures
        0 <= index <= at,
        leads_to(entries[index].path, path_view(resolved[index]), shown),
{
}

/// Enter takes the selected card, whether the carousel moves or rests: that
/// card is the one that was taken, and the picker is not closed by it. Nothing
/// else changes but that the picker is to be painted again.
pub proof fn lemma_enter_takes_the_selected_card(picker: PickerView)
    requires
        is_picker(picker),
    ensures
        after_key(picker, 28).confirmed == Some(picker.selected),
        after_key(picker, 28).entries[after_key(picker, 28).confirmed->0]
            == picker.entries[picker.selected],
        after_key(picker, 28).closed == picker.closed,
        after_key(picker, 28).frame_dirty,
        after_key(picker, 28) == (PickerView {
            confirmed: after_key(picker, 28).confirmed,
            frame_dirty: true,
            ..picker
        }),
        step_of_key(28) is None,
{
}

/// Escape closes the picker and takes no card; nothing else changes but that
/// the picker is to be painted again.
pub proof fn lemma_escape_closes_the_picker(picker: PickerView)
    ensures
        after_key(picker, 1).closed,
        after_key(picker, 1).confirmed == picker.confirmed,
        after_key(picker, 1) == (PickerView { closed: true, frame_dirty: true, ..picker }),
        step_of_key(1) is None,
{
}

/// The right arrow selects the card after, the left arrow the card before, and
/// the ends of the list meet. The carousel moves, nothing is taken and nothing
/// closed. With one card the selection stays, and nothing moves.
pub proof fn lemma_arrows_select_the_neighbours(picker: PickerView)
    requires
        is_picker(picker),
    ensures
        step_of_key(106) == Some(Step::Forward),
        step_of_key(105) == Some(Step::Back),
        picker.selected + 1 < picker.entries.len() ==> after_key(picker, 106).selected
            == picker.selected + 1,
        picker.selected + 1 == picker.entries.len() ==> after_key(picker, 106).selected == 0,
        picker.selected > 0 ==> after_key(picker, 105).selected == picker.selected - 1,
        picker.selected == 0 ==> after_key(picker, 105).selected == picker.entries.len() - 1,
        forall|key: u32|
            key == 105 || key == 106 ==> #[trigger] after_key(picker, key) == (PickerView {
                selected: after_key(picker, key).selected,
                animating: picker.animating || picker.entries.len() > 1,
                frame_dirty: true,
                ..picker
            }),
{
    lemma_step_in_ring(picker.entries.len() as int, picker.selected);
}

/// No other key does anything.
pub proof fn lemma_other_keys_do_nothing(picker: PickerView, key: u32)
    requires
        key != 28,
        key != 1,
        key != 105,
        key != 106,
    ensures
        after_key(picker, key) == picker,
        step_of_key(key) is None,
{
}

/// A step by itself moves the ring as the arrow key for it does, but for a ring
/// of one card, which it leaves alone.
pub proof fn lemma_step_is_that_of_the_arrow(picker: PickerView)
    requires
        is_picker(picker),
    ensures
        picker.entries.len() > 1 ==> stepped(picker, Step::Forward) == after_key(picker, 106),
        picker.entries.len() > 1 ==> stepped(picker, Step::Back) == after_key(picker, 105),
        picker.entries.len() == 1 ==> stepped(picker, Step::Forward) == picker,
        picker.entries.len() == 1 ==> stepped(picker, Step::Back) == picker,
{
}

/// Turning the wheel down is the left arrow, and up the right arrow; a turn of
/// no length only has the picker painted again.
pub proof fn lemma_wheel_acts_like_the_arrows(picker: PickerView, turn: int)
    ensures
        turn > 0 ==> after_wheel(picker, turn) == after_key(picker, 105) && step_of_wheel(turn)
            == step_of_key(105),
        turn < 0 ==> after_wheel(picker, turn) == after_key(picker, 106) && step_of_wheel(turn)
            == step_of_key(106),
        turn == 0 ==> after_wheel(picker, turn) == (PickerView { frame_dirty: true, ..picker })
            && step_of_wheel(turn) is None,
{
}

/// The first card under the pointer is one that the pointer is over, with none
/// before it; there is only one such card.
pub proof fn lemma_first_hit_is_the_first(hits: Seq<bool>, index: int, other: int)
    requires
        0 <= index < hits.len(),
        hits[index],
        forall|i: int| 0 <= i < index ==> !#[trigger] hits[i],
    ensures
        is_first_hit(hits, other) <==> other == index,
{
}

/// The left button selects and takes the first card under the pointer, and
/// changes nothing else.
pub proof fn lemma_click_takes_the_first_card_hit(
    picker: PickerView,
    hits: Seq<bool>,
    clicked: PickerView,
    index: int,
)
    requires
        after_click(picker, hits, clicked),
        0 <= index < hits.len(),
        hits[index],
        forall|i: int| 0 <= i < index ==> !#[trigger] hits[i],
    ensures
        BUTTON_LEFT == 272,
        clicked.selected == index,
        clicked.confirmed == Some(index),
        clicked == (PickerView { selected: index, confirmed: Some(index), ..picker }),
{
    assert(hits.contains(true)) by {
        assert(hits[index] == true);
    }
    let found = choose|found: int| #[trigger]
        is_first_hit(hits, found) && clicked == (PickerView {
            selected: found,
            confirmed: Some(found),
            ..picker
        });
    if found < index {
        assert(!hits[found]);
    }
    assert(found == index);
}

/// A click beside all cards changes nothing.
pub proof fn lemma_click_beside_changes_nothing(
    picker: PickerView,
    hits: Seq<bool>,
    clicked: PickerView,
)
    requires
        after_click(picker, hits, clicked),
        forall|i: int| 0 <= i < hits.len() ==> !#[trigger] hits[i],
    ensures
        clicked == picker,
{
}

/// A picker opens at rest, with nothing taken and nothing closed, to be
/// painted, without a size, seat or thumbnail, at a scale of one.
pub proof fn lemma_opens_at_rest(entries: Seq<EntryView>, selected: int)
    ensures
        opened(entries, selected).entries == entries,
        opened(entries, selected).selected == selected,
        opened(entries, selected).confirmed is None,
        !opened(entries, selected).closed,
        opened(entries, selected).frame_dirty,
        !opened(entries, selected).animating,
        opened(entries, selected).width == 0,
        opened(entries, selected).height == 0,
        !opened(entries, selected).has_pointer,
        !opened(entries, selected).has_keyboard,
        opened(entries, selected).thumbnails.slots.len() == entries.len(),
        forall|i: int|
            0 <= i < entries.len() ==> #[trigger] opened(
                entries,
                selected,
            ).thumbnails.slots[i] is None,
        opened(entries, selected).thumbnails.order.len() == 0,
        opened(entries, selected).output_scales == Map::<u32, i32>::empty(),
        opened(entries, selected).output_scale == 1,
{
}

/// Where no card leads to the wallpaper that is shown, or none is shown, the
/// picker opens at the first card.
pub proof fn lemma_opens_at_the_first_card(
    entries: Seq<EntryView>,
    resolved: Seq<Option<FilePath>>,
    current: Option<CurrentWallpaper>,
    index: int,
)
    requires
        opens_at(entries, resolved, current, index),
        current is Some ==> forall|i: int|
            0 <= i < entries.len() ==> !leads_to(
                (#[trigger] entries[i]).path,
                path_view(resolved[i]),
                current->0,
            ),
    ensures
        index == 0,
{
}

/// A card leads to the wallpaper that is shown where the two paths have the
/// same components, or those do that the file system resolves them to; in no
/// other way.
pub proof fn lemma_card_leads_to_its_wallpaper(
    entry: Seq<char>,
    resolved: Option<Seq<u8>>,
    current: CurrentWallpaper,
)
    ensures
        components(encode_utf8(entry)) == components(current.path@) ==> leads_to(
            entry,
            resolved,
            current,
        ),
        resolved is Some && current.canonical is Some && components(resolved->0) == components(
            current.canonical->0@,
        ) ==> leads_to(entry, resolved, current),
        leads_to(entry, resolved, current) && components(encode_utf8(entry)) != components(
            current.path@,
        ) ==> resolved is Some && current.canonical is Some && components(resolved->0)
            == components(current.canonical->0@),
{
}

/// The highest scale factor is the factor of some output, and no output's is
/// higher; without outputs it is one.
pub proof fn lemma_highest_is_some_outputs_scale(scales: Map<u32, i32>, highest: i32)
    requires
        is_highest(scales, highest),
    ensures
        scales == Map::<u32, i32>::empty() ==> highest == 1,
        scales != Map::<u32, i32>::empty() ==> exists|global: u32| #[trigger]
            scales.contains_key(global) && scales[global] == highest,
        forall|global: u32| #[trigger] scales.contains_key(global) ==> scales[global] <= highest,
{
    if scales != Map::<u32, i32>::empty() {
        assert(scales.values().contains(highest));
    }
    assert forall|global: u32| #[trigger] scales.contains_key(global) implies scales[global]
        <= highest by {
        assert(scales.values().contains(scales[global]));
    }
}

/// A card no more than half way round the ring from the selected one stands as
/// far from it as their places are apart.
pub proof fn lemma_near_card_stands_in_line(count: int, selected: int, index: int)
    requires
        -count <= 2 * (index - selected) <= count,
    ensures
        ring_offset(count, selected, index) == index - selected,
{
}

/// The cards in view are the selected one and those that at most two steps
/// either way lead to.
pub proof fn lemma_two_cards_either_side_are_in_view(picker: PickerView, index: int)
    requires
        is_picker(picker),
        0 <= index < picker.entries.len(),
    ensures
        is_in_view(picker, index) <==> exists|far: int|
            -2 <= far <= 2 && index == #[trigger] (picker.selected + far) % (
            picker.entries.len() as int),
{
    let count = picker.entries.len() as int;
    let offset = ring_offset(count, picker.selected, index);
    lemma_offset_is_the_short_way(count, picker.selected, index);
    if is_in_view(picker, index) {
        assert(index == (picker.selected + offset) % count);
    }
    assert forall|far: int| -2 <= far <= 2 && index == #[trigger] (picker.selected + far)
        % count implies is_in_view(picker, index) by {
        let sum = picker.selected + far;
        if count > 4 {
            if sum < 0 {
                lemma_mod_add_multiples_vanish(sum, count);
                lemma_small_mod((sum + count) as nat, count as nat);
            } else if sum >= count {
                lemma_mod_sub_multiples_vanish(sum, count);
                lemma_small_mod((sum - count) as nat, count as nat);
            } else {
                lemma_small_mod(sum as nat, count as nat);
            }
        }
    }
}

/// The picker can be asked for its frame where a row of it, unscaled, is too
/// long to paint, or four bytes for each pixel of the scaled frame can be
/// counted in an `i32`.
pub proof fn lemma_plan_limits(picker: PickerView)
    ensures
        has_plan(picker) <==> 4 * picker.width > 2147483647 || 4 * (pixel_side(
            picker.width,
            picker.output_scale,
        ) * pixel_side(picker.height, picker.output_scale)) <= 2147483647,
{
    lemma_surface_fits_by_its_pixels(picker.width, picker.height, picker.output_scale);
    lemma_surface_fits_by_its_pixels(picker.width, picker.height, 1);
    lemma_side_grows_with_the_scale(picker.width, 1);
    lemma_side_grows_with_the_scale(0, 1);
    lemma_side_grows_with_the_scale(1, 1);
}

/// The counter shows the place of the selected card, counted from one, and the
/// number of cards.
pub proof fn lemma_counter_shows_place_and_number(picker: PickerView)
    requires
        is_picker(picker),
    ensures
        count_text(picker) == decimal_text((picker.selected + 1) as nat) + seq![' ', '/', ' ']
            + decimal_text(picker.entries.len()),
        decimal_value(decimal_text((picker.selected + 1) as nat)) == picker.selected + 1,
        decimal_value(decimal_text(picker.entries.len())) == picker.entries.len(),
{
    reveal_strlit(" / ");
    assert(" / "@ =~= seq![' ', '/', ' ']);
    lemma_decimal_spells_the_number((picker.selected + 1) as nat);
    lemma_decimal_spells_the_number(picker.entries.len());
}

/// Under a card stands the name of its file up to the extension, and nothing
/// where the path has no name.
pub proof fn lemma_card_shows_the_stem(path: Seq<char>, stem: Seq<char>)
    ensures
        file_stem(encode_utf8(path)) == Some(encode_utf8(stem)) ==> card_text(path) == stem,
        file_stem(encode_utf8(path)) is None ==> card_text(path).len() == 0,
{
    reveal_strlit("");
    encode_utf8_valid_utf8(stem);
    encode_utf8_decode_utf8(stem);
}

/// A directory without wallpapers is named in the refusal.
pub proof fn lemma_refusal_names_the_directory(directory: Seq<char>, bytes: Seq<u8>)
    ensures
        no_wallpapers_text(bytes) == "no wallpapers found in "@ + lossy_text(bytes),
        no_wallpapers_text(encode_utf8(directory)) == "no wallpapers found in "@ + directory,
{
    lemma_encoded_text_is_shown_as_it_is(directory);
}

impl OutputScales {
    #[verifier::type_invariant]
    spec fn valid(self) -> bool {
        are_scales(self.factors@, self.highest)
    }

    fn new() -> (scales: OutputScales)
        ensures
            scales.factors@ == Map::<u32, i32>::empty(),
            scales.highest == 1,
    {
        broadcast use vstd::std_specs::hash::group_hash_axioms;

        OutputScales { factors: HashMap::new(), highest: 1 }
    }

    fn tell(&mut self, global: u32, factor: i32)
        ensures
            final(self).factors@ == old(self).factors@.insert(global, at_least_one(factor)),
            are_scales(final(self).factors@, final(self).highest),
    {
        broadcast use vstd::std_specs::hash::group_hash_axioms;

        proof {
            use_type_invariant(&*self);
        }
        let factor: i32 = if factor < 1 {
            1
        } else {
            factor
        };
        let ghost before = self.factors@;
        let mut own = OutputScales::new();
        std::mem::swap(self, &mut own);
        let OutputScales { mut factors, .. } = own;
        factors.insert(global, factor);
        assert forall|scale: i32| #[trigger] factors@.values().contains(scale) implies scale
            >= 1 by {
            let key = choose|key: u32| factors@.contains_key(key) && factors@[key] == scale;
            if key != global {
                assert(before.contains_key(key) && before[key] == scale);
                assert(before.values().contains(scale));
            }
        }
        let highest = highest_scale(&factors);
        *self = OutputScales { factors, highest };
    }
}

impl Picker {
    #[verifier::type_invariant]
    closed spec fn valid(self) -> bool {
        is_picker(self@)
    }

    /// The picker for the wallpapers of a directory, opened at the one that is
    /// shown. `resolved` are the entries' paths as the file system resolves
    /// them. A directory without wallpapers is refused, with the reason.
    pub fn open(
        entries: Vec<WallpaperEntry>,
        directory: &FilePath,
        resolved: &Vec<Option<FilePath>>,
        current: &Option<CurrentWallpaper>,
    ) -> (picker: Result<Picker, String>)
        requires
            resolved@.len() == entries@.len(),
        ensures
            picker is Err <==> entries@.len() == 0,
            picker matches Err(reason) ==> reason@ == no_wallpapers_text(directory@),
            picker matches Ok(made) ==> {
                &&& is_picker(made@)
                &&& made@ == opened(entry_views(entries@), made@.selected)
                &&& opens_at(entry_views(entries@), resolved@, *current, made@.selected)
            },
    {
        broadcast use vstd::std_specs::hash::group_hash_axioms;

        if entries.len() == 0 {
            let mut reason = "no wallpapers found in ".to_owned();
            reason.append(to_text_lossy(directory.bytes.as_slice()).as_str());
            return Err(reason);
        }
        let selected = initial_selection(&entries, resolved, current);
        let thumbnails = Thumbnails::new(entries.len());
        Ok(
            Picker {
                entries,
                selected,
                confirmed: None,
                closed: false,
                frame_dirty: true,
                animating: false,
                width: 0,
                height: 0,
                has_pointer: false,
                has_keyboard: false,
                thumbnails,
                scales: OutputScales::new(),
            },
        )
    }

    fn step(&mut self, step: Step)
        ensures
            final(self)@ == stepped(old(self)@, step),
            is_picker(final(self)@),
    {
        proof {
            use_type_invariant(&*self);
        }
        let count = self.entries.len();
        if count < 2 {
            return;
        }
        proof {
            lemma_step_in_ring(count as int, self.selected as int);
        }
        self.selected = match step {
            Step::Back => if self.selected == 0 {
                count - 1
            } else {
                self.selected - 1
            },
            Step::Forward => if self.selected + 1 == count {
                0
            } else {
                self.selected + 1
            },
        };
        self.animating = true;
        self.frame_dirty = true;
    }

    /// A key was pressed. Tells the step that it asked for.
    pub fn key(&mut self, key: u32) -> (asked: Option<Step>)
        ensures
            final(self)@ == after_key(old(self)@, key),
            is_picker(final(self)@),
            asked == step_of_key(key),
    {
        proof {
            use_type_invariant(&*self);
        }
        let mut asked: Option<Step> = None;
        if key == KEY_LEFT {
            self.step(Step::Back);
            asked = Some(Step::Back);
        } else if key == KEY_RIGHT {
            self.step(Step::Forward);
            asked = Some(Step::Forward);
        } else if key == KEY_ENTER {
            self.confirmed = Some(self.selected);
        } else if key == KEY_ESCAPE {
            self.closed = true;
        } else {
            return None;
        }
        self.frame_dirty = true;
        asked
    }

    /// The pointer's wheel was turned: down where `turn` is positive, up where
    /// it is negative. Tells the step that it asked for.
    pub fn wheel(&mut self, turn: i32) -> (asked: Option<Step>)
        ensures
            final(self)@ == after_wheel(old(self)@, turn as int),
            is_picker(final(self)@),
            asked == step_of_wheel(turn as int),
    {
        proof {
            use_type_invariant(&*self);
        }
        let mut asked: Option<Step> = None;
        if turn > 0 {
            self.step(Step::Back);
            asked = Some(Step::Back);
        } else if turn < 0 {
            self.step(Step::Forward);
            asked = Some(Step::Forward);
        }
        self.frame_dirty = true;
        asked
    }

    /// The pointer moved.
    pub fn pointer_moved(&mut self)
        ensures
            final(self)@ == (PickerView { frame_dirty: true, ..old(self)@ }),
            is_picker(final(self)@),
    {
        proof {
            use_type_invariant(&*self);
        }
        self.frame_dirty = true;
    }

    /// A button of the pointer was pressed; `hits` tells of each card whether
    /// the pointer is over it.
    pub fn button(&mut self, button: u32, hits: &Vec<bool>)
        requires
            hits@.len() == old(self)@.entries.len(),
        ensures
            button == BUTTON_LEFT ==> after_click(old(self)@, hits@, final(self)@),
            button != BUTTON_LEFT ==> final(self)@ == old(self)@,
            is_picker(final(self)@),
    {
        proof {
            use_type_invariant(&*self);
        }
        if button != BUTTON_LEFT {
            return;
        }
        let mut i: usize = 0;
        while i < hits.len()
            invariant
                i <= hits@.len(),
                hits@.len() == old(self)@.entries.len(),
                *self == *old(self),
                is_picker(old(self)@),
                button == BUTTON_LEFT,
                forall|j: int| 0 <= j < i ==> !#[trigger] hits@[j],
            decreases hits@.len() - i,
        {
            if hits[i] {
                self.selected = i;
                self.confirmed = Some(i);
                assert(hits@[i as int]);
                assert(is_first_hit(hits@, i as int));
                return;
            }
            i = i + 1;
        }
    }

    /// The compositor gave the surface a size.
    pub fn configure(&mut self, width: u32, height: u32)
        ensures
            final(self)@ == (PickerView { width, height, frame_dirty: true, ..old(self)@ }),
            is_picker(final(self)@),
    {
        proof {
            use_type_invariant(&*self);
        }
        self.width = width;
        self.height = height;
        self.frame_dirty = true;
    }

    /// The compositor is ready for the next frame, which is painted while the
    /// carousel moves.
    pub fn frame_done(&mut self)
        ensures
            final(self)@ == (PickerView { frame_dirty: old(self)@.animating, ..old(self)@ }),
            is_picker(final(self)@),
    {
        proof {
            use_type_invariant(&*self);
        }
        self.frame_dirty = self.animating;
    }

    /// An output told its scale factor.
    pub fn output_scaled(&mut self, global: u32, factor: i32)
        ensures
            final(self)@ == (PickerView {
                output_scales: old(self)@.output_scales.insert(global, at_least_one(factor)),
                output_scale: final(self)@.output_scale,
                frame_dirty: true,
                ..old(self)@
            }),
            is_picker(final(self)@),
    {
        proof {
            use_type_invariant(&*self);
        }
        let mut own = OutputScales::new();
        std::mem::swap(&mut self.scales, &mut own);
        own.tell(global, factor);
        self.scales = own;
        self.frame_dirty = true;
    }

    /// The seat told what it has. Tells whether to ask for its pointer and for
    /// its keyboard, each of which is asked for once.
    pub fn seat(&mut self, pointer: bool, keyboard: bool) -> (wanted: (bool, bool))
        ensures
            wanted.0 == (pointer && !old(self)@.has_pointer),
            wanted.1 == (keyboard && !old(self)@.has_keyboard),
            final(self)@ == (PickerView {
                has_pointer: old(self)@.has_pointer || pointer,
                has_keyboard: old(self)@.has_keyboard || keyboard,
                ..old(self)@
            }),
            is_picker(final(self)@),
    {
        proof {
            use_type_invariant(&*self);
        }
        let wanted = (pointer && !self.has_pointer, keyboard && !self.has_keyboard);
        self.has_pointer = self.has_pointer || pointer;
        self.has_keyboard = self.has_keyboard || keyboard;
        wanted
    }

    /// The carousel has come to rest.
    pub fn animation_done(&mut self)
        ensures
            final(self)@ == (PickerView { animating: false, ..old(self)@ }),
            is_picker(final(self)@),
    {
        proof {
            use_type_invariant(&*self);
        }
        self.animating = false;
    }

    /// The picker was painted.
    pub fn rendered(&mut self)
        ensures
            final(self)@ == (PickerView { frame_dirty: false, ..old(self)@ }),
            is_picker(final(self)@),
    {
        proof {
            use_type_invariant(&*self);
        }
        self.frame_dirty = false;
    }

    /// Loads the thumbnail of a card, whose file holds `data` where it could
    /// be read.
    pub fn load_thumbnail(&mut self, index: usize, data: Option<&Vec<u8>>, width: u32, height: u32)
        requires
            index < old(self)@.entries.len(),
        ensures
            final(self)@ == (PickerView {
                thumbnails: after_load(
                    old(self)@.thumbnails,
                    index,
                    encode_utf8(old(self)@.entries[index as int].path),
                    match data {
                        Some(bytes) => Some(bytes@),
                        None => None,
                    },
                    width,
                    height,
                ),
                ..old(self)@
            }),
            is_picker(final(self)@),
    {
        proof {
            use_type_invariant(&*self);
        }
        let path = self.path(index);
        let mut own = Thumbnails::new(self.entries.len());
        std::mem::swap(&mut self.thumbnails, &mut own);
        own.load(index, &path, data, width, height);
        self.thumbnails = own;
    }

    /// The thumbnail of a card, where it is loaded.
    pub fn thumbnail(&self, index: usize) -> (found: Option<&Thumbnail>)
        requires
            index < self@.entries.len(),
        ensures
            found is Some <==> self@.thumbnails.slots[index as int] is Some,
            found matches Some(thumbnail) ==> self@.thumbnails.slots[index as int] == Some(
                thumbnail@,
            ),
    {
        proof {
            use_type_invariant(self);
        }
        self.thumbnails.get(index)
    }

    /// Whether the picker still waits for the user.
    pub fn is_running(&self) -> (running: bool)
        ensures
            running == (self@.confirmed is None && !self@.closed),
    {
        self.confirmed.is_none() && !self.closed
    }

    /// Whether the picker is to be painted now.
    pub fn should_render(&self) -> (now: bool)
        ensures
            now == (self@.frame_dirty && self@.width > 0 && self@.height > 0),
    {
        self.frame_dirty && self.width > 0 && self.height > 0
    }

    /// The path of the card that the user took.
    pub fn chosen(&self) -> (path: Option<FilePath>)
        ensures
            path is Some <==> self@.confirmed is Some,
            path matches Some(found) ==> found@ == encode_utf8(
                self@.entries[self@.confirmed->0].path,
            ),
    {
        proof {
            use_type_invariant(self);
        }
        match self.confirmed {
            Some(index) => Some(self.path(index)),
            None => None,
        }
    }

    /// Whether the picker can be asked for its frame: where a row of it can be
    /// painted before it is scaled, the scaled frame can be shared with the
    /// compositor.
    pub fn can_plan(&self) -> (ok: bool)
        ensures
            ok == has_plan(self@),
    {
        !fits_row(self.width, 1) || fits_surface(self.width, self.height, self.scales.highest)
    }

    /// The frame to paint for the picker, if its rows can be painted.
    pub fn frame_plan(&self) -> (plan: Option<FramePlan>)
        requires
            has_plan(self@),
        ensures
            plan is Some <==> row_fits(pixel_side(self@.width, 1)),
            plan matches Some(made) ==> made == plan_of(
                self@.width,
                self@.height,
                self@.output_scale,
            ) && frame_fits(made.width, made.height),
    {
        if fits_row(self.width, 1) {
            Some(plan_frame(self.width, self.height, self.scales.highest))
        } else {
            None
        }
    }

    /// How far a card stands from the selected one, the short way round.
    pub fn offset(&self, index: usize) -> (offset: i128)
        requires
            index < self@.entries.len(),
        ensures
            offset == ring_offset(self@.entries.len() as int, self@.selected, index as int),
    {
        proof {
            use_type_invariant(self);
        }
        let count = self.entries.len() as i128;
        let along = index as i128 - self.selected as i128;
        if count > 1 && 2 * along > count {
            along - count
        } else if count > 1 && 2 * along < -count {
            along + count
        } else {
            along
        }
    }

    /// Whether a card is in view while the carousel is at rest.
    pub fn in_view(&self, index: usize) -> (seen: bool)
        requires
            index < self@.entries.len(),
        ensures
            seen == is_in_view(self@, index as int),
    {
        proof {
            use_type_invariant(self);
        }
        let offset = self.offset(index);
        -CARDS_IN_VIEW <= offset && offset <= CARDS_IN_VIEW
    }

    /// The number of cards.
    pub fn len(&self) -> (count: usize)
        ensures
            count == self@.entries.len(),
    {
        self.entries.len()
    }

    /// The selected card.
    pub fn selected(&self) -> (index: usize)
        ensures
            index == self@.selected,
    {
        self.selected
    }

    /// Whether the carousel moves.
    pub fn is_animating(&self) -> (animating: bool)
        ensures
            animating == self@.animating,
    {
        self.animating
    }

    /// The size of the surface.
    pub fn size(&self) -> (size: (u32, u32))
        ensures
            size == (self@.width, self@.height),
    {
        (self.width, self.height)
    }

    /// The scale factor that the picker is painted at.
    pub fn scale(&self) -> (scale: i32)
        ensures
            scale == self@.output_scale,
    {
        self.scales.highest
    }

    /// The path of a card's file.
    pub fn path(&self, index: usize) -> (path: FilePath)
        requires
            index < self@.entries.len(),
        ensures
            path@ == encode_utf8(self@.entries[index as int].path),
    {
        assert(entry_views(self.entries@)[index as int] == self.entries@[index as int]@);
        FilePath::of(self.entries[index].path.as_str())
    }

    /// The text of the counter.
    pub fn count_label(&self) -> (text: String)
        ensures
            text@ == count_text(self@),
    {
        proof {
            use_type_invariant(self);
        }
        let mut text = decimal(self.selected as u64 + 1);
        text.append(" / ");
        text.append(decimal(self.entries.len() as u64).as_str());
        text
    }

    /// The name that stands under a card.
    pub fn card_name(&self, index: usize) -> (name: String)
        requires
            index < self@.entries.len(),
        ensures
            name@ == card_text(self@.entries[index as int].path),
    {
        match self.path(index).file_stem() {
            Some(bytes) => match (FilePath { bytes }).to_text() {
                Some(text) => text,
                None => "".to_owned(),
            },
            None => "".to_owned(),
        }
    }
}

} // verus!
