//! The thumbnails that the picker keeps in memory.

use vstd::prelude::*;

use crate::frame::{can_show, shown_pixels};
use crate::frame::{try_paint_image, Painted};
use crate::path::FilePath;

verus! {

/// How many thumbnails are kept at once. The carousel shows a handful of cards
/// at a time, so this is enough for very large collections too.
pub const MAX_CACHED_THUMBNAILS: usize = 24;

/// A wallpaper painted at the size of a card.
#[derive(Debug)]
pub struct Thumbnail {
    pub width: u32,
    pub height: u32,
    pub pixels: Vec<u8>,
}

/// What a `Thumbnail` holds.
pub struct ThumbnailView {
    pub width: u32,
    pub height: u32,
    pub pixels: Seq<u8>,
}

impl View for Thumbnail {
    type V = ThumbnailView;

    open spec fn view(&self) -> ThumbnailView {
        ThumbnailView { width: self.width, height: self.height, pixels: self.pixels@ }
    }
}

/// The thumbnails of a catalog: one place for each entry, and the places that
/// are filled, from the one filled first to the one filled last.
#[derive(Debug)]
pub struct Thumbnails {
    slots: Vec<Option<Thumbnail>>,
    order: Vec<usize>,
}

/// What `Thumbnails` hold.
pub struct CacheView {
    pub slots: Seq<Option<ThumbnailView>>,
    pub order: Seq<usize>,
}

/// What a thumbnail that may be missing holds.
pub open spec fn thumbnail_view(thumbnail: Option<Thumbnail>) -> Option<ThumbnailView> {
    match thumbnail {
        Some(found) => Some(found@),
        None => None,
    }
}

impl View for Thumbnails {
    type V = CacheView;

    closed spec fn view(&self) -> CacheView {
        CacheView {
            slots: self.slots@.map_values(|slot: Option<Thumbnail>| thumbnail_view(slot)),
            order: self.order@,
        }
    }
}

/// Whether the order lists each filled place once and no other, and no more
/// places than may be filled.
pub open spec fn is_cache(cache: CacheView) -> bool {
    &&& cache.order.len() <= MAX_CACHED_THUMBNAILS
    &&& forall|i: int|
        0 <= i < cache.order.len() ==> #[trigger] cache.order[i] < cache.slots.len()
            && cache.slots[cache.order[i] as int] is Some
    &&& forall|i: int, j: int|
        0 <= i < j < cache.order.len() ==> #[trigger] cache.order[i] != #[trigger] cache.order[j]
    &&& forall|place: usize|
        place < cache.slots.len() && cache.slots[place as int] is Some
            ==> #[trigger] cache.order.contains(place)
}

/// The places of a catalog of `count` entries, none of them filled.
pub open spec fn no_thumbnails(count: nat) -> CacheView {
    CacheView { slots: Seq::new(count, |i: int| None), order: seq![] }
}

/// The cache with one more place filled; where that is one too many, the place
/// that was filled first is emptied.
pub open spec fn with_thumbnail(
    cache: CacheView,
    place: usize,
    thumbnail: ThumbnailView,
) -> CacheView {
    let slots = cache.slots.update(place as int, Some(thumbnail));
    let order = cache.order.push(place);
    if order.len() > MAX_CACHED_THUMBNAILS {
        CacheView { slots: slots.update(order[0] as int, None), order: order.skip(1) }
    } else {
        CacheView { slots, order }
    }
}

/// The cache after a card was asked for whose file, at `path`, holds `data`:
/// nothing changes where the place is filled, the file could not be read or
/// does not decode, or the image is too large to be painted.
pub open spec fn after_load(
    cache: CacheView,
    place: usize,
    path: Seq<u8>,
    data: Option<Seq<u8>>,
    width: u32,
    height: u32,
) -> CacheView {
    if place < cache.slots.len() && cache.slots[place as int] is None && data is Some && can_show(
        data->0,
        path,
        width,
        height,
    ) && shown_pixels(data->0, path, width, height) is Some {
        with_thumbnail(
            cache,
            place,
            ThumbnailView {
                width,
                height,
                pixels: shown_pixels(data->0, path, width, height)->0,
            },
        )
    } else {
        cache
    }
}

/// Filling an empty place keeps the cache well formed: it never holds more
/// thumbnails than it may, however many were loaded.
pub proof fn lemma_cache_stays_bounded(cache: CacheView, place: usize, thumbnail: ThumbnailView)
    requires
        is_cache(cache),
        place < cache.slots.len(),
        cache.slots[place as int] is None,
    ensures
        is_cache(with_thumbnail(cache, place, thumbnail)),
        with_thumbnail(cache, place, thumbnail).slots.len() == cache.slots.len(),
{
    let made = with_thumbnail(cache, place, thumbnail);
    let full = cache.order.push(place);
    assert forall|other: usize|
        other < made.slots.len() && made.slots[other as int] is Some implies #[trigger] made.order.contains(
        other,
    ) by {
        if other == place {
            assert(full[full.len() - 1] == other);
            assert(made.order[made.order.len() - 1] == other);
        } else {
            assert(cache.order.contains(other));
            let at = choose|at: int| 0 <= at < cache.order.len() && cache.order[at] == other;
            assert(full[at] == other);
            if full.len() > MAX_CACHED_THUMBNAILS {
                assert(at != 0);
                assert(made.order[at - 1] == other);
            } else {
                assert(made.order[at] == other);
            }
        }
    }
    if full.len() > MAX_CACHED_THUMBNAILS {
        assert forall|i: int| 0 <= i < made.order.len() implies #[trigger] made.order[i]
            < made.slots.len() && made.slots[made.order[i] as int] is Some by {
            assert(made.order[i] == full[i + 1]);
            assert(full[0] == cache.order[0]);
            if i + 1 < cache.order.len() {
                assert(cache.order[i + 1] != cache.order[0]);
            }
        }
    }
}

/// The thumbnail loaded last is always there to be drawn.
pub proof fn lemma_newest_is_kept(cache: CacheView, place: usize, thumbnail: ThumbnailView)
    requires
        is_cache(cache),
        place < cache.slots.len(),
        cache.slots[place as int] is None,
    ensures
        with_thumbnail(cache, place, thumbnail).slots[place as int] == Some(thumbnail),
{
    if cache.order.len() + 1 > MAX_CACHED_THUMBNAILS {
        assert(cache.order.push(place)[0] == cache.order[0]);
    }
}

/// Loading a thumbnail leaves every other place as it was, but for the one
/// filled first where the cache was full.
pub proof fn lemma_only_the_oldest_leaves(
    cache: CacheView,
    place: usize,
    thumbnail: ThumbnailView,
    other: usize,
)
    requires
        is_cache(cache),
        place < cache.slots.len(),
        cache.slots[place as int] is None,
        other < cache.slots.len(),
        other != place,
    ensures
        with_thumbnail(cache, place, thumbnail).slots[other as int] == (if cache.order.len()
            == MAX_CACHED_THUMBNAILS && other == cache.order[0] {
            None
        } else {
            cache.slots[other as int]
        }),
{
    if cache.order.len() > 0 {
        assert(cache.order.push(place)[0] == cache.order[0]);
    }
}

/// A card whose place is empty, and whose file can be read and shown, has its
/// thumbnail afterwards: what is shown of the file at the asked size. It is the
/// newest of the cache; where 24 were there before, the oldest one is gone, and
/// every other place is as it was.
pub proof fn lemma_load_fills_the_place(
    cache: CacheView,
    place: usize,
    path: Seq<u8>,
    data: Seq<u8>,
    width: u32,
    height: u32,
)
    requires
        is_cache(cache),
        place < cache.slots.len(),
        cache.slots[place as int] is None,
        can_show(data, path, width, height),
        shown_pixels(data, path, width, height) is Some,
    ensures
        ({
            let after = after_load(cache, place, path, Some(data), width, height);
            &&& cache.order.len() <= 24
            &&& after.slots.len() == cache.slots.len()
            &&& after.slots[place as int] is Some
            &&& after.slots[place as int]->0.width == width
            &&& after.slots[place as int]->0.height == height
            &&& Some(after.slots[place as int]->0.pixels) == shown_pixels(
                data,
                path,
                width,
                height,
            )
            &&& cache.order.len() < 24 ==> after.order == cache.order.push(place)
            &&& cache.order.len() == 24 ==> after.order == cache.order.drop_first().push(place)
            &&& forall|other: int|
                0 <= other < cache.slots.len() && other != place && !(cache.order.len() == 24
                    && other == cache.order[0]) ==> #[trigger] after.slots[other]
                    == cache.slots[other]
            &&& cache.order.len() == 24 ==> after.slots[cache.order[0] as int] is None
        }),
{
    let made = ThumbnailView { width, height, pixels: shown_pixels(data, path, width, height)->0 };
    let after = after_load(cache, place, path, Some(data), width, height);
    lemma_cache_stays_bounded(cache, place, made);
    lemma_newest_is_kept(cache, place, made);
    if cache.order.len() == 24 {
        assert(cache.order.push(place)[0] == cache.order[0]);
        assert(cache.order.push(place).skip(1) =~= cache.order.drop_first().push(place));
    }
}

/// A card that has its thumbnail, or whose file cannot be read or shown,
/// changes nothing.
pub proof fn lemma_load_changes_nothing_else(
    cache: CacheView,
    place: usize,
    path: Seq<u8>,
    data: Option<Seq<u8>>,
    width: u32,
    height: u32,
)
    ensures
        place < cache.slots.len() && cache.slots[place as int] is Some ==> after_load(
            cache,
            place,
            path,
            data,
            width,
            height,
        ) == cache,
        data is None ==> after_load(cache, place, path, data, width, height) == cache,
        data is Some && !can_show(data->0, path, width, height) ==> after_load(
            cache,
            place,
            path,
            data,
            width,
            height,
        ) == cache,
        data is Some && shown_pixels(data->0, path, width, height) is None ==> after_load(
            cache,
            place,
            path,
            data,
            width,
            height,
        ) == cache,
{
}

/// A cache starts with a place for each card and no thumbnail.
pub proof fn lemma_cache_starts_empty(count: nat, thumbnail: Thumbnail)
    ensures
        no_thumbnails(count).slots.len() == count,
        forall|place: int| 0 <= place < count ==> #[trigger] no_thumbnails(count).slots[place] is None,
        no_thumbnails(count).order.len() == 0,
        thumbnail_view(Some(thumbnail)) == Some(thumbnail@),
        thumbnail_view(None) is None,
        thumbnail@.width == thumbnail.width,
        thumbnail@.height == thumbnail.height,
        thumbnail@.pixels == thumbnail.pixels@,
{
}

impl Thumbnails {
    #[verifier::type_invariant]
    closed spec fn well_formed(self) -> bool {
        is_cache(self@)
    }

    /// The places of a catalog of `count` entries, none of them filled.
    pub fn new(count: usize) -> (cache: Thumbnails)
        ensures
            cache@ == no_thumbnails(count as nat),
            is_cache(cache@),
    {
        let mut slots: Vec<Option<Thumbnail>> = Vec::new();
        for i in 0..count
            invariant
                slots@.len() == i,
                forall|j: int| 0 <= j < i ==> #[trigger] slots@[j] is None,
        {
            slots.push(None);
        }
        let order: Vec<usize> = Vec::new();
        let ghost deep = slots@.map_values(|slot: Option<Thumbnail>| thumbnail_view(slot));
        assert(deep =~= no_thumbnails(count as nat).slots);
        assert(order@ =~= no_thumbnails(count as nat).order);
        Thumbnails { slots, order }
    }

    /// The number of places.
    pub fn len(&self) -> (count: usize)
        ensures
            count == self@.slots.len(),
            is_cache(self@),
    {
        proof {
            use_type_invariant(self);
        }
        self.slots.len()
    }

    /// The thumbnail at a place, where it is filled.
    pub fn get(&self, place: usize) -> (found: Option<&Thumbnail>)
        requires
            place < self@.slots.len(),
        ensures
            found is Some <==> self@.slots[place as int] is Some,
            found matches Some(thumbnail) ==> self@.slots[place as int] == Some(thumbnail@),
    {
        match &self.slots[place] {
            Some(thumbnail) => Some(thumbnail),
            None => None,
        }
    }

    fn insert(&mut self, place: usize, thumbnail: Thumbnail)
        requires
            place < old(self)@.slots.len(),
            old(self)@.slots[place as int] is None,
        ensures
            final(self)@ == with_thumbnail(old(self)@, place, thumbnail@),
    {
        proof {
            use_type_invariant(&*self);
            lemma_cache_stays_bounded(self@, place, thumbnail@);
        }
        let ghost before = self@;
        let ghost deep = |slot: Option<Thumbnail>| thumbnail_view(slot);
        let mut own = Thumbnails::new(0);
        std::mem::swap(self, &mut own);
        let Thumbnails { mut slots, mut order } = own;
        let ghost made = with_thumbnail(before, place, thumbnail@);
        slots.set(place, Some(thumbnail));
        order.push(place);
        if order.len() > MAX_CACHED_THUMBNAILS {
            let oldest = order.remove(0);
            assert(order@ =~= made.order);
            slots.set(oldest, None);
        }
        assert(slots@.map_values(deep) =~= made.slots);
        *self = Thumbnails { slots, order };
    }

    /// Loads the thumbnail of a card, where it is not there yet and its file,
    /// at `path`, could be read and painted.
    pub fn load(
        &mut self,
        place: usize,
        path: &FilePath,
        data: Option<&Vec<u8>>,
        width: u32,
        height: u32,
    )
        requires
            place < old(self)@.slots.len(),
        ensures
            final(self)@ == after_load(
                old(self)@,
                place,
                path@,
                match data {
                    Some(bytes) => Some(bytes@),
                    None => None,
                },
                width,
                height,
            ),
            is_cache(final(self)@),
    {
        proof {
            use_type_invariant(&*self);
        }
        if self.get(place).is_none() {
            if let Some(bytes) = data {
                if let Painted::Pixels(pixels) = try_paint_image(bytes, path, width, height) {
                    proof {
                        let made = ThumbnailView { width, height, pixels: pixels@ };
                        lemma_cache_stays_bounded(self@, place, made);
                    }
                    self.insert(place, Thumbnail { width, height, pixels });
                }
            }
        }
    }
}

} // verus!
