//! The wallpapers of a directory, and the palettes that are made from them.

use vstd::prelude::*;
use vstd::seq_lib::seq_to_set_is_finite;
use vstd::set_lib::{lemma_int_range, lemma_subset_equality, set_int_range};
use vstd::utf8::*;

use crate::frame::Sampling;
use crate::path::{extension, file_name, joined, path_view, FilePath};
use crate::path::lemma_joined_with_one_slash;
use crate::text::{
    bytes_before, lower_before, lower_bytes, lossy_text, same_bytes, to_lower, to_text_lossy,
};
use crate::text::{lemma_before_is_total, lemma_before_is_transitive};
use crate::text_map::TextMap;
use crate::theme::{
    build_theme, color_from_str, decodes, extract_source_color, to_hex_with_pound, Argb, ROLES,
    SAMPLE_SIDE,
};
use crate::theme::{
    hex_text, image_decodes, is_color_candidate, is_hex_color_text, parsed_color, source_color,
    theme_roles,
};
use crate::theme::lemma_hex_text_names_its_color;

verus! {

/// One wallpaper of the catalog.
#[derive(Debug, Clone)]
pub struct WallpaperEntry {
    pub name: String,
    pub path: String,
    pub width: u32,
    pub height: u32,
}

/// What a `WallpaperEntry` holds.
pub struct EntryView {
    pub name: Seq<char>,
    pub path: Seq<char>,
    pub width: u32,
    pub height: u32,
}

impl View for WallpaperEntry {
    type V = EntryView;

    open spec fn view(&self) -> EntryView {
        EntryView { name: self.name@, path: self.path@, width: self.width, height: self.height }
    }
}

/// What a walk of the wallpaper directory found under one path: whether it is
/// a file, and the size of the image in it where one could be read.
#[derive(Debug)]
pub struct FoundFile {
    pub path: FilePath,
    pub is_file: bool,
    pub dimensions: Option<(u32, u32)>,
}

/// Whether an extension, in any case, is one of an image.
pub open spec fn is_image_extension(ext: Seq<u8>) -> bool {
    let low = lower_bytes(ext);
    ||| low == encode_utf8("jpg"@)
    ||| low == encode_utf8("jpeg"@)
    ||| low == encode_utf8("png"@)
    ||| low == encode_utf8("webp"@)
    ||| low == encode_utf8("avif"@)
    ||| low == encode_utf8("bmp"@)
    ||| low == encode_utf8("svg"@)
}

/// Whether a path ends in the extension of an image.
pub open spec fn names_image(path: Seq<u8>) -> bool {
    match extension(path) {
        Some(ext) => is_image_extension(ext),
        None => false,
    }
}

/// The entry that a found path becomes: none unless it is a file with the
/// extension of an image, and its size could be read.
pub open spec fn entry_of(found: FoundFile) -> Option<EntryView> {
    match (found.dimensions, file_name(found.path@)) {
        (Some(size), Some(name)) => if found.is_file && names_image(found.path@) {
            Some(
                EntryView {
                    name: lossy_text(name),
                    path: lossy_text(found.path@),
                    width: size.0,
                    height: size.1,
                },
            )
        } else {
            None
        },
        _ => None,
    }
}

/// The entries of what was found, in the order in which it was found.
pub open spec fn entries_of(found: Seq<FoundFile>) -> Seq<EntryView>
    decreases found.len(),
{
    if found.len() == 0 {
        seq![]
    } else {
        match entry_of(found.last()) {
            Some(entry) => entries_of(found.drop_last()).push(entry),
            None => entries_of(found.drop_last()),
        }
    }
}

/// What an entry is sorted by: its name with small letters.
pub open spec fn sort_key(entry: EntryView) -> Seq<u8> {
    lower_bytes(encode_utf8(entry.name))
}

/// Whether the entry at `a` belongs before the one at `b`: by key, and where
/// the keys are equal, by place.
pub open spec fn belongs_before(list: Seq<EntryView>, a: int, b: int) -> bool {
    ||| bytes_before(sort_key(list[a]), sort_key(list[b]))
    ||| sort_key(list[a]) == sort_key(list[b]) && a < b
}

/// Whether `sorted` is `list` in the order given by the places `order`.
pub open spec fn sorted_by(list: Seq<EntryView>, sorted: Seq<EntryView>, order: Seq<int>) -> bool {
    &&& order.len() == list.len()
    &&& sorted.len() == list.len()
    &&& forall|i: int|
        0 <= i < order.len() ==> 0 <= #[trigger] order[i] < list.len() && sorted[i]
            == list[order[i]]
    &&& forall|i: int, j: int|
        0 <= i < j < order.len() ==> belongs_before(list, #[trigger] order[i], #[trigger] order[j])
}

/// Whether `sorted` is `list` sorted by key, entries with equal keys in the
/// order in which they stood.
pub open spec fn is_sorted_form(list: Seq<EntryView>, sorted: Seq<EntryView>) -> bool {
    exists|order: Seq<int>| sorted_by(list, sorted, order)
}

/// The views of a list of entries.
pub open spec fn entry_views(entries: Seq<WallpaperEntry>) -> Seq<EntryView> {
    entries.map_values(|entry: WallpaperEntry| entry@)
}

/// Whether a path ends in the extension of an image.
pub fn is_image(path: &FilePath) -> (image: bool)
    ensures
        image == names_image(path@),
{
    match path.extension() {
        Some(ext) => {
            let low = to_lower(ext.as_slice());
            let low = low.as_slice();
            same_bytes(low, "jpg".as_bytes()) || same_bytes(low, "jpeg".as_bytes()) || same_bytes(
                low,
                "png".as_bytes(),
            ) || same_bytes(low, "webp".as_bytes()) || same_bytes(low, "avif".as_bytes())
                || same_bytes(low, "bmp".as_bytes()) || same_bytes(low, "svg".as_bytes())
        },
        None => false,
    }
}

fn make_entry(found: &FoundFile) -> (entry: Option<WallpaperEntry>)
    ensures
        entry is Some <==> entry_of(*found) is Some,
        entry matches Some(made) ==> entry_of(*found) == Some(made@),
{
    if !found.is_file || !is_image(&found.path) {
        return None;
    }
    match (found.dimensions, found.path.file_name()) {
        (Some(size), Some(name)) => Some(
            WallpaperEntry {
                name: to_text_lossy(name.as_slice()),
                path: to_text_lossy(found.path.bytes.as_slice()),
                width: size.0,
                height: size.1,
            },
        ),
        _ => None,
    }
}

proof fn lemma_insert_keeps_order(
    list: Seq<EntryView>,
    sorted: Seq<EntryView>,
    order: Seq<int>,
    entry: EntryView,
    at: int,
)
    requires
        sorted_by(list, sorted, order),
        0 <= at <= sorted.len(),
        forall|j: int|
            at <= j < sorted.len() ==> bytes_before(sort_key(entry), sort_key(#[trigger] sorted[j])),
        at > 0 ==> !bytes_before(sort_key(entry), sort_key(sorted[at - 1])),
    ensures
        sorted_by(
            list.push(entry),
            sorted.insert(at, entry),
            order.insert(at, list.len() as int),
        ),
{
    let new_list = list.push(entry);
    let new_sorted = sorted.insert(at, entry);
    let new_order = order.insert(at, list.len() as int);
    assert forall|i: int| 0 <= i < new_order.len() implies 0 <= #[trigger] new_order[i]
        < new_list.len() && new_sorted[i] == new_list[new_order[i]] by {
        if i < at {
            assert(new_order[i] == order[i]);
        } else if i > at {
            assert(new_order[i] == order[i - 1]);
        }
    }
    assert forall|i: int, j: int| 0 <= i < j < new_order.len() implies belongs_before(
        new_list,
        #[trigger] new_order[i],
        #[trigger] new_order[j],
    ) by {
        if i != at && j != at {
            let oi = if i < at {
                i
            } else {
                i - 1
            };
            let oj = if j < at {
                j
            } else {
                j - 1
            };
            assert(new_order[i] == order[oi]);
            assert(new_order[j] == order[oj]);
            assert(belongs_before(list, order[oi], order[oj]));
        } else if i == at {
            assert(new_order[j] == order[j - 1]);
            assert(sorted[j - 1] == list[order[j - 1]]);
        } else {
            assert(new_order[i] == order[i]);
            assert(sorted[i] == list[order[i]]);
            assert(sorted[at - 1] == list[order[at - 1]]);
            lemma_before_is_total(sort_key(entry), sort_key(sorted[at - 1]));
            if i < at - 1 {
                assert(belongs_before(list, order[i], order[at - 1]));
                if bytes_before(sort_key(sorted[i]), sort_key(sorted[at - 1])) && sort_key(entry)
                    != sort_key(sorted[at - 1]) {
                    lemma_before_is_transitive(
                        sort_key(sorted[i]),
                        sort_key(sorted[at - 1]),
                        sort_key(entry),
                    );
                }
            }
        }
    }
}

/// The catalog of what was found in the wallpaper directory: the images of
/// readable size, sorted by name without regard to case.
pub fn list(found: &Vec<FoundFile>) -> (entries: Vec<WallpaperEntry>)
    ensures
        is_sorted_form(entries_of(found@), entry_views(entries@)),
{
    let mut entries: Vec<WallpaperEntry> = Vec::new();
    let ghost mut order: Seq<int> = seq![];
    let mut i: usize = 0;
    assert(sorted_by(entries_of(found@.take(0)), entry_views(entries@), order));
    while i < found.len()
        invariant
            i <= found.len(),
            sorted_by(entries_of(found@.take(i as int)), entry_views(entries@), order),
        decreases found.len() - i,
    {
        let ghost before = entries_of(found@.take(i as int));
        assert(found@.take(i + 1).drop_last() =~= found@.take(i as int));
        assert(found@.take(i + 1).last() == found@[i as int]);
        if let Some(entry) = make_entry(&found[i]) {
            let ghost shown = entry@;
            let ghost old_views = entry_views(entries@);
            let mut at: usize = entries.len();
            while at > 0 && lower_before(
                entry.name.as_str().as_bytes(),
                entries[at - 1].name.as_str().as_bytes(),
            )
                invariant
                    at <= entries.len(),
                    shown == entry@,
                    old_views == entry_views(entries@),
                    forall|j: int|
                        at <= j < entries.len() ==> bytes_before(
                            sort_key(shown),
                            sort_key(#[trigger] old_views[j]),
                        ),
                decreases at,
            {
                at = at - 1;
            }
            proof {
                lemma_insert_keeps_order(before, old_views, order, shown, at as int);
                order = order.insert(at as int, before.len() as int);
            }
            entries.insert(at, entry);
            assert(entry_views(entries@) =~= old_views.insert(at as int, shown));
        }
        i = i + 1;
    }
    assert(found@.take(found@.len() as int) =~= found@);
    entries
}

proof fn lemma_order_is_strict(list: Seq<EntryView>, a: int, b: int)
    ensures
        !(belongs_before(list, a, b) && belongs_before(list, b, a)),
{
    lemma_before_is_total(sort_key(list[a]), sort_key(list[b]));
}

/// Every place of a list comes up in the order that it is sorted by.
proof fn lemma_order_takes_every_place(
    list: Seq<EntryView>,
    sorted: Seq<EntryView>,
    order: Seq<int>,
    place: int,
) -> (at: int)
    requires
        sorted_by(list, sorted, order),
        0 <= place < list.len(),
    ensures
        0 <= at < order.len(),
        order[at] == place,
{
    assert(order.no_duplicates()) by {
        assert forall|i: int, j: int| 0 <= i < order.len() && 0 <= j < order.len() && i
            != j implies order[i] != order[j] by {
            if i < j {
                assert(belongs_before(list, order[i], order[j]));
            } else {
                assert(belongs_before(list, order[j], order[i]));
            }
            lemma_order_is_strict(list, order[i], order[j]);
        }
    }
    let places = set_int_range(0, list.len() as int);
    order.unique_seq_to_set();
    lemma_int_range(0, list.len() as int);
    seq_to_set_is_finite(order);
    assert(order.to_set().subset_of(places));
    lemma_subset_equality(order.to_set(), places);
    assert(order.to_set().contains(place));
    choose|at: int| 0 <= at < order.len() && order[at] == place
}

proof fn lemma_orders_agree(
    list: Seq<EntryView>,
    one: Seq<EntryView>,
    order: Seq<int>,
    other: Seq<EntryView>,
    other_order: Seq<int>,
    i: int,
)
    requires
        sorted_by(list, one, order),
        sorted_by(list, other, other_order),
        0 <= i < list.len(),
        forall|j: int| 0 <= j < i ==> #[trigger] order[j] == other_order[j],
    ensures
        order[i] == other_order[i],
{
    let a = order[i];
    let b = other_order[i];
    if a != b {
        let at = lemma_order_takes_every_place(list, one, order, b);
        let other_at = lemma_order_takes_every_place(list, other, other_order, a);
        if at < i {
            assert(order[at] == other_order[at]);
            assert(belongs_before(list, other_order[at], other_order[i]));
            lemma_order_is_strict(list, b, b);
        }
        if other_at < i {
            assert(order[other_at] == other_order[other_at]);
            assert(belongs_before(list, order[other_at], order[i]));
            lemma_order_is_strict(list, a, a);
        }
        assert(belongs_before(list, order[i], order[at]));
        assert(belongs_before(list, other_order[i], other_order[other_at]));
        lemma_order_is_strict(list, a, b);
    }
}

/// There is only one way to sort a list.
pub proof fn lemma_sorted_form_is_unique(
    list: Seq<EntryView>,
    one: Seq<EntryView>,
    other: Seq<EntryView>,
)
    requires
        is_sorted_form(list, one),
        is_sorted_form(list, other),
    ensures
        one == other,
{
    let order = choose|order: Seq<int>| sorted_by(list, one, order);
    let other_order = choose|order: Seq<int>| sorted_by(list, other, order);
    lemma_prefixes_agree(list, one, order, other, other_order, list.len() as int);
    assert forall|i: int| 0 <= i < one.len() implies one[i] == other[i] by {
        assert(order[i] == other_order[i]);
    }
    assert(one =~= other);
}

proof fn lemma_prefixes_agree(
    list: Seq<EntryView>,
    one: Seq<EntryView>,
    order: Seq<int>,
    other: Seq<EntryView>,
    other_order: Seq<int>,
    count: int,
)
    requires
        sorted_by(list, one, order),
        sorted_by(list, other, other_order),
        0 <= count <= list.len(),
    ensures
        forall|j: int| 0 <= j < count ==> #[trigger] order[j] == other_order[j],
    decreases count,
{
    if count > 0 {
        lemma_prefixes_agree(list, one, order, other, other_order, count - 1);
        lemma_orders_agree(list, one, order, other, other_order, count - 1);
    }
}

proof fn lemma_entries_are_found(found: Seq<FoundFile>)
    ensures
        forall|i: int|
            0 <= i < entries_of(found).len() ==> exists|j: int|
                0 <= j < found.len() && entry_of(#[trigger] found[j]) == Some(
                    #[trigger] entries_of(found)[i],
                ),
        forall|j: int|
            0 <= j < found.len() && entry_of(#[trigger] found[j]) is Some
                ==> entries_of(found).contains(entry_of(found[j])->0),
    decreases found.len(),
{
    if found.len() > 0 {
        let short = found.drop_last();
        let kept = entries_of(short);
        lemma_entries_are_found(short);
        assert forall|i: int| 0 <= i < entries_of(found).len() implies exists|j: int|
            0 <= j < found.len() && entry_of(#[trigger] found[j]) == Some(
                #[trigger] entries_of(found)[i],
            ) by {
            if i < kept.len() {
                let j = choose|j: int|
                    0 <= j < short.len() && entry_of(#[trigger] short[j]) == Some(kept[i]);
                assert(found[j] == short[j]);
                assert(entries_of(found)[i] == kept[i]);
            } else {
                assert(entry_of(found[found.len() - 1]) == Some(entries_of(found)[i]));
            }
        }
        assert forall|j: int| 0 <= j < found.len() && entry_of(
            #[trigger] found[j],
        ) is Some implies entries_of(found).contains(entry_of(found[j])->0) by {
            if j < short.len() {
                assert(short[j] == found[j]);
                assert(kept.contains(entry_of(short[j])->0));
                let i = choose|i: int| 0 <= i < kept.len() && kept[i] == entry_of(short[j])->0;
                assert(entries_of(found)[i] == kept[i]);
            } else {
                assert(entries_of(found)[entries_of(found).len() - 1] == entry_of(found[j])->0);
            }
        }
    }
}

/// The catalog holds what was found of images, and nothing else: each of its
/// entries is a file with the extension of an image and a readable size, every
/// such file has an entry, and no entry comes before one that it should
/// follow.
pub proof fn lemma_catalog_holds_the_images(found: Seq<FoundFile>, entries: Seq<EntryView>)
    requires
        is_sorted_form(entries_of(found), entries),
    ensures
        entries.len() == entries_of(found).len(),
        forall|i: int|
            0 <= i < entries.len() ==> exists|j: int|
                0 <= j < found.len() && entry_of(#[trigger] found[j]) == Some(#[trigger] entries[i]),
        forall|j: int|
            0 <= j < found.len() && entry_of(#[trigger] found[j]) is Some ==> entries.contains(
                entry_of(found[j])->0,
            ),
        forall|i: int, j: int|
            0 <= i < j < entries.len() ==> !bytes_before(
                sort_key(#[trigger] entries[j]),
                sort_key(#[trigger] entries[i]),
            ),
{
    let list = entries_of(found);
    let order = choose|order: Seq<int>| sorted_by(list, entries, order);
    lemma_entries_are_found(found);
    assert forall|i: int| 0 <= i < entries.len() implies exists|j: int|
        0 <= j < found.len() && entry_of(#[trigger] found[j]) == Some(#[trigger] entries[i]) by {
        assert(entries[i] == list[order[i]]);
    }
    assert forall|j: int| 0 <= j < found.len() && entry_of(
        #[trigger] found[j],
    ) is Some implies entries.contains(entry_of(found[j])->0) by {
        let entry = entry_of(found[j])->0;
        assert(list.contains(entry));
        let place = choose|place: int| 0 <= place < list.len() && list[place] == entry;
        let at = lemma_order_takes_every_place(list, entries, order, place);
        assert(entries[at] == entry);
    }
    assert forall|i: int, j: int| 0 <= i < j < entries.len() implies !bytes_before(
        sort_key(#[trigger] entries[j]),
        sort_key(#[trigger] entries[i]),
    ) by {
        assert(belongs_before(list, order[i], order[j]));
        lemma_before_is_total(sort_key(entries[i]), sort_key(entries[j]));
    }
}

/// The bytes of the extensions of images, in small letters: `jpg`, `jpeg`,
/// `png`, `webp`, `avif`, `bmp` and `svg`.
pub open spec fn image_extensions() -> Set<Seq<u8>> {
    set![
        seq![106u8, 112u8, 103u8],
        seq![106u8, 112u8, 101u8, 103u8],
        seq![112u8, 110u8, 103u8],
        seq![119u8, 101u8, 98u8, 112u8],
        seq![97u8, 118u8, 105u8, 102u8],
        seq![98u8, 109u8, 112u8],
        seq![115u8, 118u8, 103u8],
    ]
}

proof fn lemma_bytes_of_ascii(text: Seq<char>, bytes: Seq<u8>)
    requires
        text.len() == bytes.len(),
        is_ascii_chars(text),
        forall|i: int| 0 <= i < text.len() ==> #[trigger] text[i] as u8 == bytes[i],
    ensures
        encode_utf8(text) == bytes,
{
    is_ascii_chars_encode_utf8(text);
    assert(encode_utf8(text) =~= bytes);
}

/// An extension is one of an image where it is one of the seven without regard
/// to case, and a path names an image where it has such an extension.
pub proof fn lemma_image_extensions(ext: Seq<u8>, path: Seq<u8>)
    ensures
        is_image_extension(ext) <==> image_extensions().contains(lower_bytes(ext)),
        names_image(path) <==> extension(path) is Some && image_extensions().contains(
            lower_bytes(extension(path)->0),
        ),
{
    reveal_strlit("jpg");
    lemma_bytes_of_ascii("jpg"@, seq![106u8, 112u8, 103u8]);
    reveal_strlit("jpeg");
    lemma_bytes_of_ascii("jpeg"@, seq![106u8, 112u8, 101u8, 103u8]);
    reveal_strlit("png");
    lemma_bytes_of_ascii("png"@, seq![112u8, 110u8, 103u8]);
    reveal_strlit("webp");
    lemma_bytes_of_ascii("webp"@, seq![119u8, 101u8, 98u8, 112u8]);
    reveal_strlit("avif");
    lemma_bytes_of_ascii("avif"@, seq![97u8, 118u8, 105u8, 102u8]);
    reveal_strlit("bmp");
    lemma_bytes_of_ascii("bmp"@, seq![98u8, 109u8, 112u8]);
    reveal_strlit("svg");
    lemma_bytes_of_ascii("svg"@, seq![115u8, 118u8, 103u8]);
}

/// Whether a found path belongs in the catalog: it is a file, the size of an
/// image in it could be read, and its extension is one of an image.
pub open spec fn is_wanted(found: FoundFile) -> bool {
    &&& found.is_file
    &&& found.dimensions is Some
    &&& extension(found.path@) is Some
    &&& image_extensions().contains(lower_bytes(extension(found.path@)->0))
}

proof fn lemma_wanted_makes_an_entry(found: FoundFile)
    ensures
        entry_of(found) is Some <==> is_wanted(found),
        is_wanted(found) ==> {
            &&& file_name(found.path@) is Some
            &&& entry_of(found)->0.name == lossy_text(file_name(found.path@)->0)
            &&& entry_of(found)->0.path == lossy_text(found.path@)
            &&& found.dimensions == Some((entry_of(found)->0.width, entry_of(found)->0.height))
        },
{
    lemma_image_extensions(seq![], found.path@);
}

proof fn lemma_entries_stand_for_wanted(found: Seq<FoundFile>) -> (places: Seq<int>)
    ensures
        places.len() == entries_of(found).len(),
        forall|i: int|
            0 <= i < places.len() ==> 0 <= #[trigger] places[i] < found.len() && entry_of(
                found[places[i]],
            ) == Some(entries_of(found)[i]),
        forall|i: int, j: int| 0 <= i < j < places.len() ==> places[i] < places[j],
        forall|p: int|
            0 <= p < found.len() && entry_of(#[trigger] found[p]) is Some ==> places.contains(p),
    decreases found.len(),
{
    if found.len() == 0 {
        seq![]
    } else {
        let short = found.drop_last();
        let kept = lemma_entries_stand_for_wanted(short);
        let last = found.len() - 1;
        let places = if entry_of(found.last()) is Some {
            kept.push(last)
        } else {
            kept
        };
        assert forall|i: int| 0 <= i < places.len() implies 0 <= #[trigger] places[i] < found.len()
            && entry_of(found[places[i]]) == Some(entries_of(found)[i]) by {
            if i < kept.len() {
                assert(places[i] == kept[i]);
                assert(found[kept[i]] == short[kept[i]]);
            }
        }
        assert forall|p: int| 0 <= p < found.len() && entry_of(
            #[trigger] found[p],
        ) is Some implies places.contains(p) by {
            if p < last {
                assert(short[p] == found[p]);
                let i = choose|i: int| 0 <= i < kept.len() && kept[i] == p;
                assert(places[i] == p);
            } else {
                assert(places[places.len() - 1] == p);
            }
        }
        places
    }
}

/// The catalog lists each file that it should exactly once, and nothing else:
/// its entries stand one for one for the found paths that are files with an
/// image's extension and a known size. Each carries the name, the path and the
/// size of its file, whatever that size is; they stand by name without regard
/// to case, and where two names are equal, in the order in which the files were
/// found.
pub proof fn lemma_catalog_lists_each_image_once(
    found: Seq<FoundFile>,
    entries: Seq<EntryView>,
) -> (places: Seq<int>)
    requires
        is_sorted_form(entries_of(found), entries),
    ensures
        places.len() == entries.len(),
        places.no_duplicates(),
        forall|i: int|
            0 <= i < places.len() ==> {
                &&& 0 <= #[trigger] places[i] < found.len()
                &&& is_wanted(found[places[i]])
                &&& file_name(found[places[i]].path@) is Some
                &&& entries[i].name == lossy_text(file_name(found[places[i]].path@)->0)
                &&& entries[i].path == lossy_text(found[places[i]].path@)
                &&& found[places[i]].dimensions == Some((entries[i].width, entries[i].height))
            },
        forall|p: int|
            0 <= p < found.len() && is_wanted(#[trigger] found[p]) ==> places.contains(p),
        forall|i: int, j: int|
            0 <= i < j < places.len() ==> {
                let before = lower_bytes(encode_utf8((#[trigger] entries[i]).name));
                let after = lower_bytes(encode_utf8((#[trigger] entries[j]).name));
                bytes_before(before, after) || before == after && places[i] < places[j]
            },
{
    let list = entries_of(found);
    let order = choose|order: Seq<int>| sorted_by(list, entries, order);
    let stood = lemma_entries_stand_for_wanted(found);
    let places = Seq::new(order.len(), |i: int| stood[order[i]]);
    assert forall|i: int| 0 <= i < places.len() implies {
        &&& 0 <= #[trigger] places[i] < found.len()
        &&& is_wanted(found[places[i]])
        &&& file_name(found[places[i]].path@) is Some
        &&& entries[i].name == lossy_text(file_name(found[places[i]].path@)->0)
        &&& entries[i].path == lossy_text(found[places[i]].path@)
        &&& found[places[i]].dimensions == Some((entries[i].width, entries[i].height))
    } by {
        assert(0 <= order[i] < list.len() && entries[i] == list[order[i]]);
        assert(places[i] == stood[order[i]]);
        lemma_wanted_makes_an_entry(found[places[i]]);
    }
    assert forall|i: int, j: int| 0 <= i < j < places.len() implies {
        let before = lower_bytes(encode_utf8((#[trigger] entries[i]).name));
        let after = lower_bytes(encode_utf8((#[trigger] entries[j]).name));
        bytes_before(before, after) || before == after && places[i] < places[j]
    } by {
        assert(belongs_before(list, order[i], order[j]));
    }
    assert forall|i: int, j: int| 0 <= i < places.len() && 0 <= j < places.len() && i
        != j implies places[i] != places[j] by {
        assert(entries[i] == list[order[i]] && entries[j] == list[order[j]]);
        if i < j {
            assert(belongs_before(list, order[i], order[j]));
        } else {
            assert(belongs_before(list, order[j], order[i]));
        }
        lemma_order_is_strict(list, order[i], order[j]);
        assert(order[i] != order[j]);
        assert(stood[order[i]] != stood[order[j]]);
    }
    assert forall|p: int| 0 <= p < found.len() && is_wanted(
        #[trigger] found[p],
    ) implies places.contains(p) by {
        lemma_wanted_makes_an_entry(found[p]);
        assert(stood.contains(p));
        let place = choose|place: int| 0 <= place < stood.len() && stood[place] == p;
        let at = lemma_order_takes_every_place(list, entries, order, place);
        assert(places[at] == p);
    }
    places
}

/// What is seen of entries is what they hold, in their order.
pub proof fn lemma_entries_are_seen_as_they_are(entries: Seq<WallpaperEntry>, i: int)
    requires
        0 <= i < entries.len(),
    ensures
        entry_views(entries).len() == entries.len(),
        entry_views(entries)[i].name == entries[i].name@,
        entry_views(entries)[i].path == entries[i].path@,
        entry_views(entries)[i].width == entries[i].width,
        entry_views(entries)[i].height == entries[i].height,
{
}

/// The colours of a scheme by their roles, each as `#rrggbb`.
#[derive(Debug, Clone, PartialEq, Eq)]
pub struct MaterialScheme {
    pub primary: String,
    pub on_primary: String,
    pub primary_container: String,
    pub on_primary_container: String,
    pub secondary: String,
    pub on_secondary: String,
    pub tertiary: String,
    pub on_tertiary: String,
    pub background: String,
    pub on_background: String,
    pub surface: String,
    pub on_surface: String,
    pub surface_container: String,
    pub surface_variant: String,
    pub on_surface_variant: String,
    pub outline: String,
    pub outline_variant: String,
}

/// What a `MaterialScheme` holds.
pub struct SchemeView {
    pub primary: Seq<char>,
    pub on_primary: Seq<char>,
    pub primary_container: Seq<char>,
    pub on_primary_container: Seq<char>,
    pub secondary: Seq<char>,
    pub on_secondary: Seq<char>,
    pub tertiary: Seq<char>,
    pub on_tertiary: Seq<char>,
    pub background: Seq<char>,
    pub on_background: Seq<char>,
    pub surface: Seq<char>,
    pub on_surface: Seq<char>,
    pub surface_container: Seq<char>,
    pub surface_variant: Seq<char>,
    pub on_surface_variant: Seq<char>,
    pub outline: Seq<char>,
    pub outline_variant: Seq<char>,
}

impl View for MaterialScheme {
    type V = SchemeView;

    open spec fn view(&self) -> SchemeView {
        SchemeView {
            primary: self.primary@,
            on_primary: self.on_primary@,
            primary_container: self.primary_container@,
            on_primary_container: self.on_primary_container@,
            secondary: self.secondary@,
            on_secondary: self.on_secondary@,
            tertiary: self.tertiary@,
            on_tertiary: self.on_tertiary@,
            background: self.background@,
            on_background: self.on_background@,
            surface: self.surface@,
            on_surface: self.on_surface@,
            surface_container: self.surface_container@,
            surface_variant: self.surface_variant@,
            on_surface_variant: self.on_surface_variant@,
            outline: self.outline@,
            outline_variant: self.outline_variant@,
        }
    }
}

/// A dark scheme and a light one.
#[derive(Debug, Clone, PartialEq, Eq)]
pub struct MaterialPalette {
    pub dark: MaterialScheme,
    pub light: MaterialScheme,
}

/// What a `MaterialPalette` holds.
pub struct PaletteView {
    pub dark: SchemeView,
    pub light: SchemeView,
}

impl View for MaterialPalette {
    type V = PaletteView;

    open spec fn view(&self) -> PaletteView {
        PaletteView { dark: self.dark@, light: self.light@ }
    }
}

/// A scheme as a map from role to colour. The primary colour stands a second
/// time as the accent.
pub open spec fn scheme_map(scheme: SchemeView) -> Map<Seq<char>, Seq<char>> {
    map![
        "primary"@ => scheme.primary,
        "on_primary"@ => scheme.on_primary,
        "primary_container"@ => scheme.primary_container,
        "on_primary_container"@ => scheme.on_primary_container,
        "secondary"@ => scheme.secondary,
        "on_secondary"@ => scheme.on_secondary,
        "tertiary"@ => scheme.tertiary,
        "on_tertiary"@ => scheme.on_tertiary,
        "background"@ => scheme.background,
        "on_background"@ => scheme.on_background,
        "surface"@ => scheme.surface,
        "on_surface"@ => scheme.on_surface,
        "surface_container"@ => scheme.surface_container,
        "surface_variant"@ => scheme.surface_variant,
        "on_surface_variant"@ => scheme.on_surface_variant,
        "outline"@ => scheme.outline,
        "outline_variant"@ => scheme.outline_variant,
        "accent"@ => scheme.primary,
    ]
}

/// The scheme whose colours are given in the order of its fields.
pub open spec fn scheme_of(roles: Seq<Argb>) -> SchemeView {
    SchemeView {
        primary: hex_text(roles[0]),
        on_primary: hex_text(roles[1]),
        primary_container: hex_text(roles[2]),
        on_primary_container: hex_text(roles[3]),
        secondary: hex_text(roles[4]),
        on_secondary: hex_text(roles[5]),
        tertiary: hex_text(roles[6]),
        on_tertiary: hex_text(roles[7]),
        background: hex_text(roles[8]),
        on_background: hex_text(roles[9]),
        surface: hex_text(roles[10]),
        on_surface: hex_text(roles[11]),
        surface_container: hex_text(roles[12]),
        surface_variant: hex_text(roles[13]),
        on_surface_variant: hex_text(roles[14]),
        outline: hex_text(roles[15]),
        outline_variant: hex_text(roles[16]),
    }
}

/// The palette for a source colour.
pub open spec fn palette_of(source: Argb) -> PaletteView {
    PaletteView {
        dark: scheme_of(theme_roles(source).0),
        light: scheme_of(theme_roles(source).1),
    }
}

/// The dark scheme that stands in where no colours can be had.
pub open spec fn fallback_dark() -> SchemeView {
    SchemeView {
        primary: "#7dd3fc"@,
        on_primary: "#003548"@,
        primary_container: "#004d67"@,
        on_primary_container: "#bfe9ff"@,
        secondary: "#b3cad5"@,
        on_secondary: "#1e333c"@,
        tertiary: "#c6c2ea"@,
        on_tertiary: "#2e2d4d"@,
        background: "#0c0e16"@,
        on_background: "#e2e8f0"@,
        surface: "#121722"@,
        on_surface: "#e2e8f0"@,
        surface_container: "#182030"@,
        surface_variant: "#2a3447"@,
        on_surface_variant: "#94a3b8"@,
        outline: "#38455e"@,
        outline_variant: "#242d3d"@,
    }
}

/// The light scheme that stands in where no colours can be had.
pub open spec fn fallback_light() -> SchemeView {
    SchemeView {
        primary: "#0284c7"@,
        on_primary: "#ffffff"@,
        primary_container: "#bfe9ff"@,
        on_primary_container: "#001f2a"@,
        secondary: "#4b626d"@,
        on_secondary: "#ffffff"@,
        tertiary: "#5d5b7e"@,
        on_tertiary: "#ffffff"@,
        background: "#f8fafc"@,
        on_background: "#0f172a"@,
        surface: "#ffffff"@,
        on_surface: "#0f172a"@,
        surface_container: "#f1f5f9"@,
        surface_variant: "#e2e8f0"@,
        on_surface_variant: "#64748b"@,
        outline: "#cbd5e1"@,
        outline_variant: "#e2e8f0"@,
    }
}

/// The palette that stands in where no colours can be had.
pub open spec fn fallback() -> PaletteView {
    PaletteView { dark: fallback_dark(), light: fallback_light() }
}

/// The palette for an image file that was read, or was not: the one for the
/// image's source colour, or the fallback.
pub open spec fn extracted_palette(data: Option<Seq<u8>>) -> PaletteView {
    match data {
        Some(bytes) => palette_of(source_color(bytes, SAMPLE_SIDE, Sampling::Lanczos3)),
        None => fallback(),
    }
}

/// The bytes of a file that was read.
pub open spec fn bytes_of(data: Option<&Vec<u8>>) -> Option<Seq<u8>> {
    match data {
        Some(bytes) => Some(bytes@),
        None => None,
    }
}

/// Whether what was read of an image file, if anything, decodes.
pub open spec fn is_decodable(data: Option<Seq<u8>>) -> bool {
    data matches Some(bytes) ==> image_decodes(bytes)
}

/// Whether every colour of a scheme is `#` and six hexadecimal digits.
pub open spec fn holds_colors(scheme: SchemeView) -> bool {
    &&& is_hex_color_text(scheme.primary)
    &&& is_hex_color_text(scheme.on_primary)
    &&& is_hex_color_text(scheme.primary_container)
    &&& is_hex_color_text(scheme.on_primary_container)
    &&& is_hex_color_text(scheme.secondary)
    &&& is_hex_color_text(scheme.on_secondary)
    &&& is_hex_color_text(scheme.tertiary)
    &&& is_hex_color_text(scheme.on_tertiary)
    &&& is_hex_color_text(scheme.background)
    &&& is_hex_color_text(scheme.on_background)
    &&& is_hex_color_text(scheme.surface)
    &&& is_hex_color_text(scheme.on_surface)
    &&& is_hex_color_text(scheme.surface_container)
    &&& is_hex_color_text(scheme.surface_variant)
    &&& is_hex_color_text(scheme.on_surface_variant)
    &&& is_hex_color_text(scheme.outline)
    &&& is_hex_color_text(scheme.outline_variant)
}

proof fn lemma_scheme_holds_colors(roles: Seq<Argb>)
    ensures
        holds_colors(scheme_of(roles)),
{
    lemma_hex_text_names_its_color(roles[0]);
    lemma_hex_text_names_its_color(roles[1]);
    lemma_hex_text_names_its_color(roles[2]);
    lemma_hex_text_names_its_color(roles[3]);
    lemma_hex_text_names_its_color(roles[4]);
    lemma_hex_text_names_its_color(roles[5]);
    lemma_hex_text_names_its_color(roles[6]);
    lemma_hex_text_names_its_color(roles[7]);
    lemma_hex_text_names_its_color(roles[8]);
    lemma_hex_text_names_its_color(roles[9]);
    lemma_hex_text_names_its_color(roles[10]);
    lemma_hex_text_names_its_color(roles[11]);
    lemma_hex_text_names_its_color(roles[12]);
    lemma_hex_text_names_its_color(roles[13]);
    lemma_hex_text_names_its_color(roles[14]);
    lemma_hex_text_names_its_color(roles[15]);
    lemma_hex_text_names_its_color(roles[16]);
}

proof fn lemma_fallback_holds_colors()
    ensures
        holds_colors(fallback_dark()),
        holds_colors(fallback_light()),
{
    reveal_strlit("#7dd3fc");
    reveal_strlit("#003548");
    reveal_strlit("#004d67");
    reveal_strlit("#bfe9ff");
    reveal_strlit("#b3cad5");
    reveal_strlit("#1e333c");
    reveal_strlit("#c6c2ea");
    reveal_strlit("#2e2d4d");
    reveal_strlit("#0c0e16");
    reveal_strlit("#e2e8f0");
    reveal_strlit("#121722");
    reveal_strlit("#182030");
    reveal_strlit("#2a3447");
    reveal_strlit("#94a3b8");
    reveal_strlit("#38455e");
    reveal_strlit("#242d3d");
    reveal_strlit("#0284c7");
    reveal_strlit("#ffffff");
    reveal_strlit("#001f2a");
    reveal_strlit("#4b626d");
    reveal_strlit("#5d5b7e");
    reveal_strlit("#f8fafc");
    reveal_strlit("#0f172a");
    reveal_strlit("#f1f5f9");
    reveal_strlit("#64748b");
    reveal_strlit("#cbd5e1");
}

/// Every colour of the palette for a source colour, in both schemes, is `#`
/// and six hexadecimal digits.
pub proof fn lemma_palette_holds_colors(source: Argb)
    ensures
        holds_colors(palette_of(source).dark),
        holds_colors(palette_of(source).light),
{
    lemma_scheme_holds_colors(theme_roles(source).0);
    lemma_scheme_holds_colors(theme_roles(source).1);
}

/// Every colour of the palette for an image file, in both schemes, is `#` and
/// six hexadecimal digits, whether the file could be read or not.
pub proof fn lemma_extracted_palette_holds_colors(data: Option<Seq<u8>>)
    ensures
        holds_colors(extracted_palette(data).dark),
        holds_colors(extracted_palette(data).light),
{
    match data {
        Some(bytes) => lemma_palette_holds_colors(
            source_color(bytes, SAMPLE_SIDE, Sampling::Lanczos3),
        ),
        None => lemma_fallback_holds_colors(),
    }
}

/// The accent of a scheme's map is its primary colour.
pub proof fn lemma_accent_is_the_primary_color(scheme: SchemeView)
    ensures
        scheme_map(scheme).contains_key("accent"@),
        scheme_map(scheme).contains_key("primary"@),
        scheme_map(scheme)["accent"@] == scheme.primary,
        scheme_map(scheme)["primary"@] == scheme.primary,
{
    reveal_strlit("primary");
    reveal_strlit("on_primary");
    reveal_strlit("primary_container");
    reveal_strlit("on_primary_container");
    reveal_strlit("secondary");
    reveal_strlit("on_secondary");
    reveal_strlit("tertiary");
    reveal_strlit("on_tertiary");
    reveal_strlit("background");
    reveal_strlit("on_background");
    reveal_strlit("surface");
    reveal_strlit("on_surface");
    reveal_strlit("surface_container");
    reveal_strlit("surface_variant");
    reveal_strlit("on_surface_variant");
    reveal_strlit("outline");
    reveal_strlit("outline_variant");
    reveal_strlit("accent");
    assert("primary"@[0] == 'p' && "primary"@.len() == 7);
    assert("on_primary"@.len() == 10);
    assert("primary_container"@.len() == 17);
    assert("on_primary_container"@.len() == 20);
    assert("secondary"@.len() == 9);
    assert("on_secondary"@.len() == 12);
    assert("tertiary"@.len() == 8);
    assert("on_tertiary"@.len() == 11);
    assert("background"@.len() == 10);
    assert("on_background"@.len() == 13);
    assert("surface"@[0] == 's');
    assert("on_surface"@.len() == 10);
    assert("surface_container"@.len() == 17);
    assert("surface_variant"@.len() == 15);
    assert("on_surface_variant"@.len() == 18);
    assert("outline"@[0] == 'o');
    assert("outline_variant"@.len() == 15);
    assert("accent"@.len() == 6);
}

/// The map of a scheme gives each of the seventeen roles its own colour, and
/// the accent the primary one; it has no other keys.
pub proof fn lemma_map_gives_each_role_its_color(scheme: SchemeView)
    ensures
        scheme_map(scheme)["primary"@] == scheme.primary,
        scheme_map(scheme)["on_primary"@] == scheme.on_primary,
        scheme_map(scheme)["primary_container"@] == scheme.primary_container,
        scheme_map(scheme)["on_primary_container"@] == scheme.on_primary_container,
        scheme_map(scheme)["secondary"@] == scheme.secondary,
        scheme_map(scheme)["on_secondary"@] == scheme.on_secondary,
        scheme_map(scheme)["tertiary"@] == scheme.tertiary,
        scheme_map(scheme)["on_tertiary"@] == scheme.on_tertiary,
        scheme_map(scheme)["background"@] == scheme.background,
        scheme_map(scheme)["on_background"@] == scheme.on_background,
        scheme_map(scheme)["surface"@] == scheme.surface,
        scheme_map(scheme)["on_surface"@] == scheme.on_surface,
        scheme_map(scheme)["surface_container"@] == scheme.surface_container,
        scheme_map(scheme)["surface_variant"@] == scheme.surface_variant,
        scheme_map(scheme)["on_surface_variant"@] == scheme.on_surface_variant,
        scheme_map(scheme)["outline"@] == scheme.outline,
        scheme_map(scheme)["outline_variant"@] == scheme.outline_variant,
        scheme_map(scheme)["accent"@] == scheme.primary,
        forall|key: Seq<char>| #[trigger]
            scheme_map(scheme).contains_key(key) <==> {
                ||| key == "primary"@
                ||| key == "on_primary"@
                ||| key == "primary_container"@
                ||| key == "on_primary_container"@
                ||| key == "secondary"@
                ||| key == "on_secondary"@
                ||| key == "tertiary"@
                ||| key == "on_tertiary"@
                ||| key == "background"@
                ||| key == "on_background"@
                ||| key == "surface"@
                ||| key == "on_surface"@
                ||| key == "surface_container"@
                ||| key == "surface_variant"@
                ||| key == "on_surface_variant"@
                ||| key == "outline"@
                ||| key == "outline_variant"@
                ||| key == "accent"@
            },
{
    reveal_strlit("primary");
    reveal_strlit("on_primary");
    reveal_strlit("primary_container");
    reveal_strlit("on_primary_container");
    reveal_strlit("secondary");
    reveal_strlit("on_secondary");
    reveal_strlit("tertiary");
    reveal_strlit("on_tertiary");
    reveal_strlit("background");
    reveal_strlit("on_background");
    reveal_strlit("surface");
    reveal_strlit("on_surface");
    reveal_strlit("surface_container");
    reveal_strlit("surface_variant");
    reveal_strlit("on_surface_variant");
    reveal_strlit("outline");
    reveal_strlit("outline_variant");
    reveal_strlit("accent");
    assert("primary"@.len() == 7 && "primary"@[0] == 'p');
    assert("on_primary"@.len() == 10 && "on_primary"@[0] == 'o' && "on_primary"@[3] == 'p');
    assert("primary_container"@.len() == 17 && "primary_container"@[0] == 'p');
    assert("on_primary_container"@.len() == 20);
    assert("secondary"@.len() == 9);
    assert("on_secondary"@.len() == 12);
    assert("tertiary"@.len() == 8);
    assert("on_tertiary"@.len() == 11);
    assert("background"@.len() == 10 && "background"@[0] == 'b');
    assert("on_background"@.len() == 13);
    assert("surface"@.len() == 7 && "surface"@[0] == 's');
    assert("on_surface"@.len() == 10 && "on_surface"@[0] == 'o' && "on_surface"@[3] == 's');
    assert("surface_container"@.len() == 17 && "surface_container"@[0] == 's');
    assert("surface_variant"@.len() == 15 && "surface_variant"@[0] == 's');
    assert("on_surface_variant"@.len() == 18);
    assert("outline"@.len() == 7 && "outline"@[0] == 'o');
    assert("outline_variant"@.len() == 15 && "outline_variant"@[0] == 'o');
    assert("accent"@.len() == 6);
}

/// Whether a text names a colour, made opaque.
pub open spec fn names_color(text: Seq<char>, color: Argb) -> bool {
    parsed_color(text) == Some(Argb { alpha: 255, ..color })
}

/// Each colour of a scheme names the colour given for its role, and no other.
pub proof fn lemma_scheme_names_its_roles(roles: Seq<Argb>)
    ensures
        names_color(scheme_of(roles).primary, roles[0]),
        names_color(scheme_of(roles).on_primary, roles[1]),
        names_color(scheme_of(roles).primary_container, roles[2]),
        names_color(scheme_of(roles).on_primary_container, roles[3]),
        names_color(scheme_of(roles).secondary, roles[4]),
        names_color(scheme_of(roles).on_secondary, roles[5]),
        names_color(scheme_of(roles).tertiary, roles[6]),
        names_color(scheme_of(roles).on_tertiary, roles[7]),
        names_color(scheme_of(roles).background, roles[8]),
        names_color(scheme_of(roles).on_background, roles[9]),
        names_color(scheme_of(roles).surface, roles[10]),
        names_color(scheme_of(roles).on_surface, roles[11]),
        names_color(scheme_of(roles).surface_container, roles[12]),
        names_color(scheme_of(roles).surface_variant, roles[13]),
        names_color(scheme_of(roles).on_surface_variant, roles[14]),
        names_color(scheme_of(roles).outline, roles[15]),
        names_color(scheme_of(roles).outline_variant, roles[16]),
{
    lemma_hex_text_names_its_color(roles[0]);
    lemma_hex_text_names_its_color(roles[1]);
    lemma_hex_text_names_its_color(roles[2]);
    lemma_hex_text_names_its_color(roles[3]);
    lemma_hex_text_names_its_color(roles[4]);
    lemma_hex_text_names_its_color(roles[5]);
    lemma_hex_text_names_its_color(roles[6]);
    lemma_hex_text_names_its_color(roles[7]);
    lemma_hex_text_names_its_color(roles[8]);
    lemma_hex_text_names_its_color(roles[9]);
    lemma_hex_text_names_its_color(roles[10]);
    lemma_hex_text_names_its_color(roles[11]);
    lemma_hex_text_names_its_color(roles[12]);
    lemma_hex_text_names_its_color(roles[13]);
    lemma_hex_text_names_its_color(roles[14]);
    lemma_hex_text_names_its_color(roles[15]);
    lemma_hex_text_names_its_color(roles[16]);
}

/// The dark scheme of a palette is made of the theme's dark colours and the
/// light one of its light colours.
pub proof fn lemma_palette_keeps_dark_and_light_apart(source: Argb)
    ensures
        palette_of(source).dark == scheme_of(theme_roles(source).0),
        palette_of(source).light == scheme_of(theme_roles(source).1),
{
}

/// An image that was read has the palette of its source colour, taken from a
/// square of 128 pixels.
pub proof fn lemma_read_image_brings_its_colors(data: Seq<u8>)
    ensures
        extracted_palette(Some(data)) == palette_of(source_color(data, 128, Sampling::Lanczos3)),
        is_decodable(Some(data)) <==> image_decodes(data),
{
}

/// An image that could not be read has the fallback.
pub proof fn lemma_unread_image_has_the_fallback()
    ensures
        extracted_palette(None) == fallback(),
        is_decodable(None),
{
}

/// What is seen of a palette and of a scheme is what they hold.
pub proof fn lemma_palette_is_seen_as_it_is(palette: MaterialPalette, scheme: MaterialScheme)
    ensures
        palette@.dark == palette.dark@,
        palette@.light == palette.light@,
        scheme@.primary == scheme.primary@,
        scheme@.on_primary == scheme.on_primary@,
        scheme@.primary_container == scheme.primary_container@,
        scheme@.on_primary_container == scheme.on_primary_container@,
        scheme@.secondary == scheme.secondary@,
        scheme@.on_secondary == scheme.on_secondary@,
        scheme@.tertiary == scheme.tertiary@,
        scheme@.on_tertiary == scheme.on_tertiary@,
        scheme@.background == scheme.background@,
        scheme@.on_background == scheme.on_background@,
        scheme@.surface == scheme.surface@,
        scheme@.on_surface == scheme.on_surface@,
        scheme@.surface_container == scheme.surface_container@,
        scheme@.surface_variant == scheme.surface_variant@,
        scheme@.on_surface_variant == scheme.on_surface_variant@,
        scheme@.outline == scheme.outline@,
        scheme@.outline_variant == scheme.outline_variant@,
{
}

/// The colours that stand in where none can be had.
pub proof fn lemma_fallback_colors()
    ensures
        fallback().dark.primary == "#7dd3fc"@,
        fallback().dark.on_primary == "#003548"@,
        fallback().dark.primary_container == "#004d67"@,
        fallback().dark.on_primary_container == "#bfe9ff"@,
        fallback().dark.secondary == "#b3cad5"@,
        fallback().dark.on_secondary == "#1e333c"@,
        fallback().dark.tertiary == "#c6c2ea"@,
        fallback().dark.on_tertiary == "#2e2d4d"@,
        fallback().dark.background == "#0c0e16"@,
        fallback().dark.on_background == "#e2e8f0"@,
        fallback().dark.surface == "#121722"@,
        fallback().dark.on_surface == "#e2e8f0"@,
        fallback().dark.surface_container == "#182030"@,
        fallback().dark.surface_variant == "#2a3447"@,
        fallback().dark.on_surface_variant == "#94a3b8"@,
        fallback().dark.outline == "#38455e"@,
        fallback().dark.outline_variant == "#242d3d"@,
        fallback().light.primary == "#0284c7"@,
        fallback().light.on_primary == "#ffffff"@,
        fallback().light.primary_container == "#bfe9ff"@,
        fallback().light.on_primary_container == "#001f2a"@,
        fallback().light.secondary == "#4b626d"@,
        fallback().light.on_secondary == "#ffffff"@,
        fallback().light.tertiary == "#5d5b7e"@,
        fallback().light.on_tertiary == "#ffffff"@,
        fallback().light.background == "#f8fafc"@,
        fallback().light.on_background == "#0f172a"@,
        fallback().light.surface == "#ffffff"@,
        fallback().light.on_surface == "#0f172a"@,
        fallback().light.surface_container == "#f1f5f9"@,
        fallback().light.surface_variant == "#e2e8f0"@,
        fallback().light.on_surface_variant == "#64748b"@,
        fallback().light.outline == "#cbd5e1"@,
        fallback().light.outline_variant == "#e2e8f0"@,
{
}

impl MaterialScheme {
    /// The scheme as a map from role to colour, with the accent added.
    pub fn to_map(&self) -> (map: TextMap)
        ensures
            map.map() == scheme_map(self@),
    {
        let mut map = TextMap::new();
        map.insert("primary".to_owned(), self.primary.clone());
        map.insert("on_primary".to_owned(), self.on_primary.clone());
        map.insert("primary_container".to_owned(), self.primary_container.clone());
        map.insert("on_primary_container".to_owned(), self.on_primary_container.clone());
        map.insert("secondary".to_owned(), self.secondary.clone());
        map.insert("on_secondary".to_owned(), self.on_secondary.clone());
        map.insert("tertiary".to_owned(), self.tertiary.clone());
        map.insert("on_tertiary".to_owned(), self.on_tertiary.clone());
        map.insert("background".to_owned(), self.background.clone());
        map.insert("on_background".to_owned(), self.on_background.clone());
        map.insert("surface".to_owned(), self.surface.clone());
        map.insert("on_surface".to_owned(), self.on_surface.clone());
        map.insert("surface_container".to_owned(), self.surface_container.clone());
        map.insert("surface_variant".to_owned(), self.surface_variant.clone());
        map.insert("on_surface_variant".to_owned(), self.on_surface_variant.clone());
        map.insert("outline".to_owned(), self.outline.clone());
        map.insert("outline_variant".to_owned(), self.outline_variant.clone());
        map.insert("accent".to_owned(), self.primary.clone());
        map
    }
}

/// The palette that stands in where no colours can be had.
pub fn fallback_palette() -> (palette: MaterialPalette)
    ensures
        palette@ == fallback(),
{
    let dark = MaterialScheme {
        primary: "#7dd3fc".to_owned(),
        on_primary: "#003548".to_owned(),
        primary_container: "#004d67".to_owned(),
        on_primary_container: "#bfe9ff".to_owned(),
        secondary: "#b3cad5".to_owned(),
        on_secondary: "#1e333c".to_owned(),
        tertiary: "#c6c2ea".to_owned(),
        on_tertiary: "#2e2d4d".to_owned(),
        background: "#0c0e16".to_owned(),
        on_background: "#e2e8f0".to_owned(),
        surface: "#121722".to_owned(),
        on_surface: "#e2e8f0".to_owned(),
        surface_container: "#182030".to_owned(),
        surface_variant: "#2a3447".to_owned(),
        on_surface_variant: "#94a3b8".to_owned(),
        outline: "#38455e".to_owned(),
        outline_variant: "#242d3d".to_owned(),
    };
    let light = MaterialScheme {
        primary: "#0284c7".to_owned(),
        on_primary: "#ffffff".to_owned(),
        primary_container: "#bfe9ff".to_owned(),
        on_primary_container: "#001f2a".to_owned(),
        secondary: "#4b626d".to_owned(),
        on_secondary: "#ffffff".to_owned(),
        tertiary: "#5d5b7e".to_owned(),
        on_tertiary: "#ffffff".to_owned(),
        background: "#f8fafc".to_owned(),
        on_background: "#0f172a".to_owned(),
        surface: "#ffffff".to_owned(),
        on_surface: "#0f172a".to_owned(),
        surface_container: "#f1f5f9".to_owned(),
        surface_variant: "#e2e8f0".to_owned(),
        on_surface_variant: "#64748b".to_owned(),
        outline: "#cbd5e1".to_owned(),
        outline_variant: "#e2e8f0".to_owned(),
    };
    MaterialPalette { dark, light }
}

/// The scheme with the given colours, in the order of its fields.
pub fn scheme_from_m3(roles: &Vec<Argb>) -> (scheme: MaterialScheme)
    requires
        roles.len() == ROLES,
    ensures
        scheme@ == scheme_of(roles@),
{
    MaterialScheme {
        primary: to_hex_with_pound(roles[0]),
        on_primary: to_hex_with_pound(roles[1]),
        primary_container: to_hex_with_pound(roles[2]),
        on_primary_container: to_hex_with_pound(roles[3]),
        secondary: to_hex_with_pound(roles[4]),
        on_secondary: to_hex_with_pound(roles[5]),
        tertiary: to_hex_with_pound(roles[6]),
        on_tertiary: to_hex_with_pound(roles[7]),
        background: to_hex_with_pound(roles[8]),
        on_background: to_hex_with_pound(roles[9]),
        surface: to_hex_with_pound(roles[10]),
        on_surface: to_hex_with_pound(roles[11]),
        surface_container: to_hex_with_pound(roles[12]),
        surface_variant: to_hex_with_pound(roles[13]),
        on_surface_variant: to_hex_with_pound(roles[14]),
        outline: to_hex_with_pound(roles[15]),
        outline_variant: to_hex_with_pound(roles[16]),
    }
}

/// The palette for a source colour.
pub fn palette_from_source(source: Argb) -> (palette: MaterialPalette)
    ensures
        palette@ == palette_of(source),
{
    let roles = build_theme(source);
    MaterialPalette { dark: scheme_from_m3(&roles.0), light: scheme_from_m3(&roles.1) }
}

/// The palette for the colour that a text names, where it names one.
pub fn palette_from_hex(hex: &str) -> (palette: Option<MaterialPalette>)
    requires
        is_color_candidate(hex@),
    ensures
        palette is Some <==> parsed_color(hex@) is Some,
        palette matches Some(made) ==> made@ == palette_of(parsed_color(hex@)->0),
{
    match color_from_str(hex) {
        Some(color) => Some(palette_from_source(color)),
        None => None,
    }
}

/// The palette for an image file: `data` is what it holds, or nothing where it
/// could not be read.
pub fn extract_palette(data: Option<&Vec<u8>>) -> (palette: MaterialPalette)
    requires
        is_decodable(bytes_of(data)),
    ensures
        palette@ == extracted_palette(bytes_of(data)),
{
    match data {
        Some(bytes) => palette_from_source(
            extract_source_color(bytes.as_slice(), SAMPLE_SIDE, Sampling::Lanczos3),
        ),
        None => fallback_palette(),
    }
}

/// Whether what was read of an image file, if anything, decodes.
pub fn can_extract(data: Option<&Vec<u8>>) -> (ok: bool)
    ensures
        ok == is_decodable(bytes_of(data)),
{
    match data {
        Some(bytes) => decodes(bytes.as_slice()),
        None => true,
    }
}

/// The palette for an image file, or nothing where what was read of it does
/// not decode.
pub fn try_extract_palette(data: Option<&Vec<u8>>) -> (palette: Option<MaterialPalette>)
    ensures
        palette is Some <==> is_decodable(bytes_of(data)),
        palette matches Some(made) ==> made@ == extracted_palette(bytes_of(data)),
{
    if can_extract(data) {
        Some(extract_palette(data))
    } else {
        None
    }
}

/// The accent for an image file: the primary colour of its dark scheme.
pub fn accent(data: Option<&Vec<u8>>) -> (color: String)
    requires
        is_decodable(bytes_of(data)),
    ensures
        color@ == extracted_palette(bytes_of(data)).dark.primary,
{
    extract_palette(data).dark.primary
}

/// The accent for an image file, or nothing where what was read of it does not
/// decode.
pub fn try_accent(data: Option<&Vec<u8>>) -> (color: Option<String>)
    ensures
        color is Some <==> is_decodable(bytes_of(data)),
        color matches Some(found) ==> found@ == extracted_palette(bytes_of(data)).dark.primary,
{
    if can_extract(data) {
        Some(accent(data))
    } else {
        None
    }
}

/// The path of a catalog's first wallpaper.
pub fn first_path(entries: &Vec<WallpaperEntry>) -> (path: Option<FilePath>)
    ensures
        path is Some <==> entries@.len() > 0,
        path matches Some(found) ==> found@ == encode_utf8(entries@[0]@.path),
{
    if entries.len() > 0 {
        Some(FilePath::of(entries[0].path.as_str()))
    } else {
        None
    }
}

/// What the disk says of a path: its canonical form where it exists, whether
/// that is a file, and whether the size of an image in it could be read.
#[derive(Debug)]
pub struct Probe {
    pub canonical: Option<FilePath>,
    pub is_file: bool,
    pub is_image: bool,
}

/// Why a path is no wallpaper.
#[derive(Debug)]
pub enum ResolveError {
    /// Nothing exists under the path.
    Missing(FilePath),
    /// What exists under the path is no file.
    NotAFile(FilePath),
    /// The file holds no image of a known kind.
    Unreadable(FilePath),
}

/// The text that tells a user why a path is no wallpaper.
pub open spec fn error_text(error: ResolveError) -> Seq<char> {
    match error {
        ResolveError::Missing(path) => "wallpaper does not exist: "@ + lossy_text(path@),
        ResolveError::NotAFile(path) => "wallpaper is not a file: "@ + lossy_text(path@),
        ResolveError::Unreadable(path) => "unsupported or unreadable image: "@ + lossy_text(path@),
    }
}

impl ResolveError {
    /// The text that tells a user why a path is no wallpaper.
    pub fn message(&self) -> (text: String)
        ensures
            text@ == error_text(*self),
    {
        match self {
            ResolveError::Missing(path) => "wallpaper does not exist: ".to_owned().concat(
                to_text_lossy(path.bytes.as_slice()).as_str(),
            ),
            ResolveError::NotAFile(path) => "wallpaper is not a file: ".to_owned().concat(
                to_text_lossy(path.bytes.as_slice()).as_str(),
            ),
            ResolveError::Unreadable(path) => "unsupported or unreadable image: ".to_owned().concat(
                to_text_lossy(path.bytes.as_slice()).as_str(),
            ),
        }
    }
}

/// The path to look for on the disk: the input as it is where it starts at the
/// root, else under the wallpaper directory.
pub fn resolve_target(input: &FilePath, directory: &FilePath) -> (target: FilePath)
    ensures
        target@ == joined(directory@, input@),
{
    directory.join(input)
}

/// The canonical path of a wallpaper, or why it is none, from what the disk
/// says of `resolve_target(input, directory)`.
pub fn resolve(input: &FilePath, directory: &FilePath, probe: Probe) -> (path: Result<
    FilePath,
    ResolveError,
>)
    ensures
        path is Ok <==> probe.canonical is Some && probe.is_file && probe.is_image,
        path matches Ok(found) ==> found@ == probe.canonical->0@,
        path matches Err(ResolveError::Missing(missing)) ==> missing@ == joined(
            directory@,
            input@,
        ),
        path matches Err(ResolveError::NotAFile(other)) ==> other@ == probe.canonical->0@,
        path matches Err(ResolveError::Unreadable(other)) ==> other@ == probe.canonical->0@,
        path matches Err(error) ==> {
            &&& error is Missing <==> probe.canonical is None
            &&& error is NotAFile <==> probe.canonical is Some && !probe.is_file
            &&& error is Unreadable <==> probe.canonical is Some && probe.is_file
                && !probe.is_image
        },
{
    match probe.canonical {
        None => Err(ResolveError::Missing(resolve_target(input, directory))),
        Some(path) => if !probe.is_file {
            Err(ResolveError::NotAFile(path))
        } else if !probe.is_image {
            Err(ResolveError::Unreadable(path))
        } else {
            Ok(path)
        },
    }
}

/// The wallpaper directory: the one that the user set, else
/// `Pictures/wallpapers` under the home directory, or under the current one
/// where there is no home.
pub open spec fn default_directory_of(set: Option<Seq<u8>>, home: Option<Seq<u8>>) -> Seq<u8> {
    match (set, home) {
        (Some(path), _) => path,
        (None, Some(path)) => joined(path, encode_utf8("Pictures/wallpapers"@)),
        (None, None) => joined(encode_utf8("."@), encode_utf8("Pictures/wallpapers"@)),
    }
}

/// A directory that the user set is taken as it is; without one, it is
/// `Pictures/wallpapers` behind the home directory and one slash, and without a
/// home, the same behind a dot.
pub proof fn lemma_default_directory(set: Seq<u8>, home: Option<Seq<u8>>)
    ensures
        default_directory_of(Some(set), home) == set,
        home is Some && (home->0.len() == 0 || home->0.last() == 47) ==> default_directory_of(
            None,
            home,
        ) == home->0 + encode_utf8("Pictures/wallpapers"@),
        home is Some && !(home->0.len() == 0 || home->0.last() == 47) ==> default_directory_of(
            None,
            home,
        ) == home->0 + seq![47u8] + encode_utf8("Pictures/wallpapers"@),
        default_directory_of(None, None) == seq![46u8, 47u8] + encode_utf8("Pictures/wallpapers"@),
{
    reveal_strlit("Pictures/wallpapers");
    reveal_strlit(".");
    let inner = "Pictures/wallpapers"@;
    assert(is_ascii_chars(inner));
    is_ascii_chars_encode_utf8(inner);
    assert(inner[0] as u8 == encode_utf8(inner)[0]);
    lemma_bytes_of_ascii("."@, seq![46u8]);
    if let Some(base) = home {
        lemma_joined_with_one_slash(base, encode_utf8(inner));
    }
    lemma_joined_with_one_slash(seq![46u8], encode_utf8(inner));
    assert(seq![46u8] + seq![47u8] =~= seq![46u8, 47u8]);
}

/// The text of an error says what is wrong, and of which path.
pub proof fn lemma_error_text_tells_the_path(path: FilePath)
    ensures
        error_text(ResolveError::Missing(path)) == "wallpaper does not exist: "@ + lossy_text(
            path@,
        ),
        error_text(ResolveError::NotAFile(path)) == "wallpaper is not a file: "@ + lossy_text(
            path@,
        ),
        error_text(ResolveError::Unreadable(path)) == "unsupported or unreadable image: "@
            + lossy_text(path@),
{
}

/// The wallpaper directory. `set` is the value of `WYRD_WALLPAPER_DIR` and
/// `home` that of `HOME`.
pub fn default_directory(set: Option<FilePath>, home: Option<FilePath>) -> (directory: FilePath)
    ensures
        directory@ == default_directory_of(path_view(set), path_view(home)),
{
    match set {
        Some(path) => path,
        None => {
            let base = match home {
                Some(path) => path,
                None => FilePath::of("."),
            };
            base.join(&FilePath::of("Pictures/wallpapers"))
        },
    }
}

} // verus!
