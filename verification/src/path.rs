//! File paths as the byte strings that a Unix system takes them for.

use vstd::prelude::*;
use vstd::utf8::*;

use crate::text::{same_bytes, to_text_lossy};

verus! {

/// The byte between the names of a path.
pub const SEPARATOR: u8 = 47;

/// The byte before a file name's extension.
pub const DOT: u8 = 46;

/// A file path: any bytes, `/` between names.
#[derive(Debug)]
pub struct FilePath {
    pub bytes: Vec<u8>,
}

impl View for FilePath {
    type V = Seq<u8>;

    open spec fn view(&self) -> Seq<u8> {
        self.bytes@
    }
}

/// The bytes of a path that may be missing.
pub open spec fn path_view(path: Option<FilePath>) -> Option<Seq<u8>> {
    match path {
        Some(found) => Some(found@),
        None => None,
    }
}

/// Whether a path starts at the root.
pub open spec fn is_rooted(path: Seq<u8>) -> bool {
    path.len() > 0 && path[0] == SEPARATOR
}

/// `rest` taken relative to `base`: `rest` alone where it starts at the root,
/// else the two with one separator between them where one is missing.
pub open spec fn joined(base: Seq<u8>, rest: Seq<u8>) -> Seq<u8> {
    if is_rooted(rest) {
        rest
    } else if base.len() > 0 && base.last() != SEPARATOR {
        base.push(SEPARATOR) + rest
    } else {
        base + rest
    }
}

/// The index after the last separator in the first `end` bytes.
pub open spec fn piece_start(path: Seq<u8>, end: int) -> int
    decreases end,
{
    if end <= 0 {
        0
    } else if path[end - 1] == SEPARATOR {
        end
    } else {
        piece_start(path, end - 1)
    }
}

/// Where the last name in the first `end` bytes stands. Empty pieces and
/// pieces that are a single dot are no names and are passed over; `..` and the
/// root are not names either, and end the search.
pub open spec fn name_span(path: Seq<u8>, end: int) -> Option<(int, int)>
    decreases end,
    when 0 <= end <= path.len()
{
    let start = piece_start(path, end);
    let piece = path.subrange(start, end);
    if piece == Seq::<u8>::empty() || piece == seq![DOT] {
        if start <= 0 || end <= 0 || start > end {
            None
        } else {
            name_span(path, start - 1)
        }
    } else if piece == seq![DOT, DOT] {
        None
    } else {
        Some((start, end))
    }
}

/// The last name of a path.
pub open spec fn file_name(path: Seq<u8>) -> Option<Seq<u8>> {
    match name_span(path, path.len() as int) {
        Some(span) => Some(path.subrange(span.0, span.1)),
        None => None,
    }
}

/// The index of the last dot in the first `end` bytes, or -1.
pub open spec fn last_dot(name: Seq<u8>, end: int) -> int
    decreases end,
{
    if end <= 0 {
        -1
    } else if name[end - 1] == DOT {
        end - 1
    } else {
        last_dot(name, end - 1)
    }
}

/// How much of a file name stands before its extension: all of it where there
/// is no dot, or none but at the start.
pub open spec fn stem_len(name: Seq<u8>) -> int {
    let dot = last_dot(name, name.len() as int);
    if dot <= 0 {
        name.len() as int
    } else {
        dot
    }
}

/// A path's last name without its extension.
pub open spec fn file_stem(path: Seq<u8>) -> Option<Seq<u8>> {
    match file_name(path) {
        Some(name) => Some(name.take(stem_len(name))),
        None => None,
    }
}

/// What follows the last dot of a path's last name, where that dot is not the
/// name's first byte.
pub open spec fn extension(path: Seq<u8>) -> Option<Seq<u8>> {
    match file_name(path) {
        Some(name) => if stem_len(name) < name.len() {
            Some(name.skip(stem_len(name) + 1))
        } else {
            None
        },
        None => None,
    }
}

/// A path with the extension of its last name replaced, or taken away where
/// the new one is empty; a path without a last name stays as it is.
pub open spec fn with_extension(path: Seq<u8>, new: Seq<u8>) -> Seq<u8> {
    match name_span(path, path.len() as int) {
        Some(span) => {
            let stem_end = span.0 + stem_len(path.subrange(span.0, span.1));
            if new.len() > 0 {
                path.take(stem_end).push(DOT) + new
            } else {
                path.take(stem_end)
            }
        },
        None => path,
    }
}

/// The pieces between separators from index `start` on.
pub open spec fn pieces_from(path: Seq<u8>, start: int) -> Seq<Seq<u8>>
    decreases path.len() - start,
    when 0 <= start <= path.len()
{
    let end = piece_end(path, start);
    let piece = path.subrange(start, end);
    if end < path.len() && end >= start {
        seq![piece] + pieces_from(path, end + 1)
    } else {
        seq![piece]
    }
}

/// The index of the first separator from `start` on, or the path's length.
pub open spec fn piece_end(path: Seq<u8>, start: int) -> int
    decreases path.len() - start,
{
    if start >= path.len() {
        path.len() as int
    } else if path[start] == SEPARATOR {
        start
    } else {
        piece_end(path, start + 1)
    }
}

/// Whether a piece between separators counts as a component.
pub open spec fn is_component(piece: Seq<u8>) -> bool {
    piece.len() > 0 && piece != seq![DOT]
}

/// What a path is before its names: the root, the current directory written
/// out as a leading dot, or nothing.
pub open spec fn lead(path: Seq<u8>) -> Seq<Seq<u8>> {
    if is_rooted(path) {
        seq![seq![SEPARATOR]]
    } else if path.len() > 0 && path.subrange(0, piece_end(path, 0)) == seq![DOT] {
        seq![seq![DOT]]
    } else {
        seq![]
    }
}

/// The components of a path: two paths with the same components name the same
/// file without a look at the disk.
pub open spec fn components(path: Seq<u8>) -> Seq<Seq<u8>> {
    lead(path) + pieces_from(path, 0).filter(|piece: Seq<u8>| is_component(piece))
}

/// Whether a byte string is the name of a file: not empty, without separators,
/// and neither `.` nor `..`.
pub open spec fn is_plain_name(name: Seq<u8>) -> bool {
    &&& name.len() > 0
    &&& !name.contains(SEPARATOR)
    &&& name != seq![DOT]
    &&& name != seq![DOT, DOT]
}

proof fn lemma_piece_starts_at(path: Seq<u8>, start: int, end: int)
    requires
        0 <= start <= end <= path.len(),
        start > 0 ==> path[start - 1] == SEPARATOR,
        forall|i: int| start <= i < end ==> #[trigger] path[i] != SEPARATOR,
    ensures
        piece_start(path, end) == start,
    decreases end,
{
    if end > start {
        lemma_piece_starts_at(path, start, end - 1);
    }
}

proof fn lemma_name_stands_last(before: Seq<u8>, name: Seq<u8>)
    requires
        is_plain_name(name),
        before.len() > 0 ==> before.last() == SEPARATOR,
    ensures
        name_span(before + name, (before + name).len() as int) == Some(
            (before.len() as int, (before + name).len() as int),
        ),
{
    let path = before + name;
    assert forall|i: int| before.len() <= i < path.len() implies #[trigger] path[i] != SEPARATOR by {
        assert(path[i] == name[i - before.len()]);
        assert(name.contains(name[i - before.len()]));
    }
    lemma_piece_starts_at(path, before.len() as int, path.len() as int);
    assert(path.subrange(before.len() as int, path.len() as int) =~= name);
}

/// A plain name is a path whose last name is all of it.
pub proof fn lemma_name_without_directory(name: Seq<u8>)
    requires
        is_plain_name(name),
    ensures
        name_span(name, name.len() as int) == Some((0int, name.len() as int)),
        file_name(name) == Some(name),
{
    lemma_name_stands_last(Seq::empty(), name);
    assert(Seq::<u8>::empty() + name =~= name);
    assert(name.subrange(0, name.len() as int) =~= name);
}

/// The last name of a path under a directory is the name that was put there.
pub proof fn lemma_joined_name_is_the_file_name(directory: Seq<u8>, name: Seq<u8>)
    requires
        is_plain_name(name),
    ensures
        file_name(joined(directory, name)) == Some(name),
{
    assert(!is_rooted(name)) by {
        assert(name.contains(name[0]));
    }
    let before = if directory.len() > 0 && directory.last() != SEPARATOR {
        directory.push(SEPARATOR)
    } else {
        directory
    };
    lemma_name_stands_last(before, name);
    assert((before + name).subrange(before.len() as int, (before + name).len() as int) =~= name);
}

/// A file whose extension is replaced stays in its directory.
pub proof fn lemma_new_extension_keeps_the_directory(
    directory: Seq<u8>,
    name: Seq<u8>,
    new: Seq<u8>,
)
    requires
        is_plain_name(name),
    ensures
        with_extension(joined(directory, name), new) == joined(
            directory,
            with_extension(name, new),
        ),
{
    let before = if directory.len() > 0 && directory.last() != SEPARATOR {
        directory.push(SEPARATOR)
    } else {
        directory
    };
    let path = before + name;
    assert(!is_rooted(name)) by {
        assert(name.contains(name[0]));
    }
    lemma_name_stands_last(before, name);
    lemma_name_without_directory(name);
    assert(path.subrange(before.len() as int, path.len() as int) =~= name);
    assert(name.subrange(0, name.len() as int) =~= name);
    lemma_stem_is_not_empty(name);
    let stem = stem_len(name);
    let renamed = with_extension(name, new);
    assert(!is_rooted(renamed)) by {
        assert(renamed[0] == name[0]);
    }
    assert(path.take(before.len() + stem) =~= before + name.take(stem));
    assert(with_extension(path, new) =~= before + renamed);
}

proof fn lemma_last_dot_is_inside(name: Seq<u8>, end: int)
    requires
        0 <= end <= name.len(),
    ensures
        last_dot(name, end) < end || end == 0,
    decreases end,
{
    if end > 0 && name[end - 1] != DOT {
        lemma_last_dot_is_inside(name, end - 1);
    }
}

proof fn lemma_stem_is_not_empty(name: Seq<u8>)
    requires
        name.len() > 0,
    ensures
        1 <= stem_len(name) <= name.len(),
{
    lemma_last_dot_is_inside(name, name.len() as int);
}

/// A path that is there is seen as it is, and one that is missing is missing.
pub proof fn lemma_path_is_seen_as_it_is(path: FilePath)
    ensures
        path_view(Some(path)) == Some(path.bytes@),
        path_view(None) is None,
{
}

/// A path under a base is the path itself where it starts with a slash; else it
/// follows the base, with one slash between them unless the base is empty or
/// ends in one.
pub proof fn lemma_joined_with_one_slash(base: Seq<u8>, rest: Seq<u8>)
    ensures
        is_rooted(rest) <==> rest.len() > 0 && rest[0] == 47,
        rest.len() > 0 && rest[0] == 47 ==> joined(base, rest) == rest,
        !(rest.len() > 0 && rest[0] == 47) ==> joined(base, rest) == if base.len() == 0
            || base.last() == 47 {
            base + rest
        } else {
            base + seq![47u8] + rest
        },
{
    assert(base.push(SEPARATOR) =~= base + seq![47u8]);
}

proof fn lemma_piece_start_of_prefix(path: Seq<u8>, longer: Seq<u8>, end: int)
    requires
        0 <= end <= path.len() <= longer.len(),
        forall|i: int| 0 <= i < path.len() ==> #[trigger] longer[i] == path[i],
    ensures
        piece_start(longer, end) == piece_start(path, end),
        0 <= piece_start(path, end) <= end,
    decreases end,
{
    if end > 0 && path[end - 1] != SEPARATOR {
        lemma_piece_start_of_prefix(path, longer, end - 1);
    }
}

proof fn lemma_name_span_of_prefix(path: Seq<u8>, longer: Seq<u8>, end: int)
    requires
        0 <= end <= path.len() <= longer.len(),
        forall|i: int| 0 <= i < path.len() ==> #[trigger] longer[i] == path[i],
    ensures
        name_span(longer, end) == name_span(path, end),
        name_span(path, end) matches Some(span) ==> 0 <= span.0 <= span.1 <= end,
    decreases end,
{
    lemma_piece_start_of_prefix(path, longer, end);
    let start = piece_start(path, end);
    assert(longer.subrange(start, end) =~= path.subrange(start, end));
    if start > 0 {
        lemma_name_span_of_prefix(path, longer, start - 1);
    }
}

proof fn lemma_idle_end_keeps_the_span(path: Seq<u8>)
    ensures
        name_span(path + seq![47u8], path.len() as int + 1) == name_span(path, path.len() as int),
        name_span(path + seq![47u8, 46u8], path.len() as int + 2) == name_span(path, path.len() as int),
        name_span(path, path.len() as int) matches Some(span) ==> 0 <= span.0 <= span.1
            <= path.len(),
{
    let slash = path + seq![47u8];
    let dot = path + seq![47u8, 46u8];
    let end = path.len() as int;
    lemma_name_span_of_prefix(path, slash, end);
    lemma_name_span_of_prefix(path, dot, end);
    assert(piece_start(slash, end + 1) == end + 1);
    assert(slash.subrange(end + 1, end + 1) =~= Seq::<u8>::empty());
    assert(piece_start(dot, end + 2) == end + 1) by {
        assert(dot[end + 1] == 46);
        assert(dot[end] == 47);
        assert(piece_start(dot, end + 1) == end + 1);
    }
    assert(dot.subrange(end + 1, end + 2) =~= seq![DOT]);
}

/// A slash at the end of a path, or a dot behind one, does not change what its
/// last name is; it goes when that name gets another extension.
pub proof fn lemma_idle_end_keeps_the_name(path: Seq<u8>, new: Seq<u8>)
    ensures
        file_name(path + seq![47u8]) == file_name(path),
        file_name(path + seq![47u8, 46u8]) == file_name(path),
        file_name(path) is Some ==> with_extension(path + seq![47u8], new) == with_extension(
            path,
            new,
        ),
        file_name(path) is Some ==> with_extension(path + seq![47u8, 46u8], new)
            == with_extension(path, new),
{
    let slash = path + seq![47u8];
    let dot = path + seq![47u8, 46u8];
    lemma_idle_end_keeps_the_span(path);
    if let Some(span) = name_span(path, path.len() as int) {
        let name = path.subrange(span.0, span.1);
        assert(slash.subrange(span.0, span.1) =~= name);
        assert(dot.subrange(span.0, span.1) =~= name);
        lemma_last_dot_is_inside(name, name.len() as int);
        let stem_end = span.0 + stem_len(name);
        assert(slash.take(stem_end) =~= path.take(stem_end));
        assert(dot.take(stem_end) =~= path.take(stem_end));
    }
}

/// A path that is empty, a single dot, or ends in two dots has no last name.
pub proof fn lemma_dots_are_no_name(before: Seq<u8>)
    requires
        before.len() > 0 ==> before.last() == 47,
    ensures
        file_name(Seq::empty()) is None,
        file_name(seq![46u8]) is None,
        file_name(before + seq![46u8, 46u8]) is None,
{
    let path = before + seq![46u8, 46u8];
    lemma_piece_starts_at(path, before.len() as int, path.len() as int);
    assert(path.subrange(before.len() as int, path.len() as int) =~= seq![DOT, DOT]);
    assert(Seq::<u8>::empty().subrange(0, 0) =~= Seq::<u8>::empty());
    let dot = seq![46u8];
    lemma_piece_starts_at(dot, 0, 1);
    assert(dot.subrange(0, 1) =~= seq![DOT]);
}

/// The last name is what stands behind the last slash, where that is a name.
pub proof fn lemma_name_stands_behind_the_last_slash(before: Seq<u8>, name: Seq<u8>)
    requires
        before.len() > 0 ==> before.last() == 47,
        name.len() > 0,
        !name.contains(47u8),
        name != seq![46u8],
        name != seq![46u8, 46u8],
    ensures
        file_name(before + name) == Some(name),
{
    lemma_name_stands_last(before, name);
    assert((before + name).subrange(before.len() as int, (before + name).len() as int) =~= name);
}

proof fn lemma_last_dot_is(name: Seq<u8>, dot: int, end: int)
    requires
        0 <= dot < end <= name.len(),
        name[dot] == 46,
        forall|i: int| dot < i < end ==> #[trigger] name[i] != 46,
    ensures
        last_dot(name, end) == dot,
    decreases end,
{
    if end - 1 > dot {
        lemma_last_dot_is(name, dot, end - 1);
    }
}

proof fn lemma_no_last_dot(name: Seq<u8>, end: int)
    requires
        0 <= end <= name.len(),
        forall|i: int| 1 <= i < end ==> #[trigger] name[i] != 46,
    ensures
        last_dot(name, end) <= 0,
    decreases end,
{
    if end > 0 {
        lemma_no_last_dot(name, end - 1);
    }
}

/// A name is its stem, a dot and its extension, the dot being the last one; a
/// name whose only dot stands in front, or that has none, is all stem.
pub proof fn lemma_name_is_stem_and_extension(path: Seq<u8>, stem: Seq<u8>, ext: Seq<u8>)
    requires
        stem.len() > 0,
        !ext.contains(46u8),
        file_name(path) == Some(stem + seq![46u8] + ext),
    ensures
        file_stem(path) == Some(stem),
        extension(path) == Some(ext),
{
    let name = stem + seq![46u8] + ext;
    assert forall|i: int| stem.len() < i < name.len() implies #[trigger] name[i] != 46 by {
        assert(name[i] == ext[i - stem.len() - 1]);
        assert(ext.contains(ext[i - stem.len() - 1]));
    }
    lemma_last_dot_is(name, stem.len() as int, name.len() as int);
    assert(name.take(stem.len() as int) =~= stem);
    assert(name.skip(stem.len() as int + 1) =~= ext);
}

/// A name without a dot behind its first byte has no extension; a path without
/// a name has neither stem nor extension.
pub proof fn lemma_name_without_extension(path: Seq<u8>)
    ensures
        file_name(path) is None ==> file_stem(path) is None && extension(path) is None,
        file_name(path) is Some && (forall|i: int|
            1 <= i < (file_name(path)->0).len() ==> #[trigger] (file_name(path)->0)[i] != 46)
            ==> extension(path) is None && file_stem(path) == file_name(path),
{
    if let Some(name) = file_name(path) {
        if forall|i: int| 1 <= i < name.len() ==> #[trigger] name[i] != 46 {
            lemma_no_last_dot(name, name.len() as int);
            assert(name.take(name.len() as int) =~= name);
        }
    }
}

/// A name with a new extension is its stem, a dot and that extension, or the
/// stem alone where the new extension is empty; a path without a name stays.
pub proof fn lemma_new_extension_follows_the_stem(name: Seq<u8>, path: Seq<u8>, new: Seq<u8>)
    requires
        is_plain_name(name),
    ensures
        with_extension(name, new) == if new.len() == 0 {
            file_stem(name)->0
        } else {
            file_stem(name)->0 + seq![46u8] + new
        },
        file_name(path) is None ==> with_extension(path, new) == path,
{
    lemma_name_without_directory(name);
    assert(name.subrange(0, name.len() as int) =~= name);
    let stem = name.take(stem_len(name));
    assert(stem.push(DOT) + new =~= stem + seq![46u8] + new);
}

proof fn lemma_piece_end_is(path: Seq<u8>, start: int, end: int)
    requires
        0 <= start <= end <= path.len(),
        end < path.len() ==> path[end] == SEPARATOR,
        forall|i: int| start <= i < end ==> #[trigger] path[i] != SEPARATOR,
    ensures
        piece_end(path, start) == end,
    decreases end - start,
{
    if start < end {
        lemma_piece_end_is(path, start + 1, end);
    }
}

proof fn lemma_piece_end_stops(path: Seq<u8>, start: int)
    requires
        0 <= start <= path.len(),
    ensures
        start <= piece_end(path, start) <= path.len(),
        piece_end(path, start) < path.len() ==> path[piece_end(path, start)] == SEPARATOR,
        forall|i: int| start <= i < piece_end(path, start) ==> #[trigger] path[i] != SEPARATOR,
    decreases path.len() - start,
{
    if start < path.len() && path[start] != SEPARATOR {
        lemma_piece_end_stops(path, start + 1);
    }
}

proof fn lemma_pieces_of_longer(path: Seq<u8>, piece: Seq<u8>, start: int)
    requires
        !piece.contains(SEPARATOR),
        0 <= start <= path.len(),
    ensures
        pieces_from(path + seq![SEPARATOR] + piece, start) == pieces_from(path, start).push(piece),
        piece_end(path + seq![SEPARATOR] + piece, start) == piece_end(path, start),
    decreases path.len() - start,
{
    let longer = path + seq![SEPARATOR] + piece;
    let end = piece_end(path, start);
    lemma_piece_end_stops(path, start);
    assert(longer[end] == SEPARATOR);
    assert forall|i: int| start <= i < end implies #[trigger] longer[i] != SEPARATOR by {
        assert(longer[i] == path[i]);
    }
    lemma_piece_end_is(longer, start, end);
    assert(longer.subrange(start, end) =~= path.subrange(start, end));
    if end < path.len() {
        lemma_pieces_of_longer(path, piece, end + 1);
        assert(pieces_from(longer, start) =~= pieces_from(path, start).push(piece));
    } else {
        let last = path.len() + 1;
        assert forall|i: int| last <= i < longer.len() implies #[trigger] longer[i] != SEPARATOR by {
            assert(longer[i] == piece[i - last]);
            assert(piece.contains(piece[i - last]));
        }
        lemma_piece_end_is(longer, last as int, longer.len() as int);
        assert(longer.subrange(last as int, longer.len() as int) =~= piece);
        assert(pieces_from(longer, last as int) =~= seq![piece]);
        assert(pieces_from(longer, start) =~= pieces_from(path, start).push(piece));
    }
}

/// A piece behind one more slash adds itself to the components of a path, and
/// nothing where it is empty or a single dot.
pub proof fn lemma_piece_adds_a_component(path: Seq<u8>, piece: Seq<u8>)
    requires
        !piece.contains(47u8),
        path.len() > 0,
    ensures
        components(path + seq![47u8] + piece) == if piece.len() == 0 || piece == seq![46u8] {
            components(path)
        } else {
            components(path).push(piece)
        },
{
    let longer = path + seq![SEPARATOR] + piece;
    let keep = |piece: Seq<u8>| is_component(piece);
    lemma_pieces_of_longer(path, piece, 0);
    lemma_piece_end_stops(path, 0);
    lemma_filter_push(pieces_from(path, 0), piece, keep);
    assert(longer[0] == path[0]);
    assert(longer.subrange(0, piece_end(path, 0)) =~= path.subrange(0, piece_end(path, 0)));
    assert(components(longer) == lead(path) + pieces_from(path, 0).push(piece).filter(keep));
    if keep(piece) {
        assert(components(longer) =~= components(path).push(piece));
    }
    if piece.len() == 0 {
        assert(!keep(piece));
    }
}

/// A piece alone is its own component; the empty path has none, a piece behind
/// the first slash follows the root, and a single dot in front stays.
pub proof fn lemma_components_of_a_piece(piece: Seq<u8>)
    requires
        !piece.contains(47u8),
    ensures
        components(piece) == if piece.len() == 0 {
            seq![]
        } else {
            seq![piece]
        },
        components(seq![47u8] + piece) == if piece.len() == 0 || piece == seq![46u8] {
            seq![seq![47u8]]
        } else {
            seq![seq![47u8], piece]
        },
{
    let keep = |piece: Seq<u8>| is_component(piece);
    let none: Seq<Seq<u8>> = seq![];
    assert forall|i: int| 0 <= i < piece.len() implies #[trigger] piece[i] != SEPARATOR by {
        assert(piece.contains(piece[i]));
    }
    lemma_piece_end_is(piece, 0, piece.len() as int);
    assert(piece.subrange(0, piece.len() as int) =~= piece);
    assert(pieces_from(piece, 0) =~= none.push(piece));
    lemma_filter_push(none, piece, keep);
    assert(none.filter(keep) =~= none) by {
        reveal(Seq::filter);
    }
    if piece.len() > 0 {
        assert(piece[0] != SEPARATOR);
    }
    assert(components(piece) =~= if piece.len() == 0 {
        none
    } else {
        seq![piece]
    });
    let empty = Seq::<u8>::empty();
    let rooted = seq![47u8] + piece;
    assert(empty + seq![SEPARATOR] + piece =~= rooted);
    lemma_pieces_of_longer(empty, piece, 0);
    assert(piece_end(empty, 0) == 0);
    assert(empty.subrange(0, 0) =~= empty);
    assert(pieces_from(empty, 0) =~= none.push(empty));
    lemma_filter_push(none, empty, keep);
    lemma_filter_push(none.push(empty), piece, keep);
    assert(components(rooted) =~= if piece.len() == 0 || piece == seq![46u8] {
        seq![seq![47u8]]
    } else {
        seq![seq![47u8], piece]
    });
}

fn copy_range(bytes: &Vec<u8>, start: usize, end: usize) -> (part: Vec<u8>)
    requires
        start <= end <= bytes.len(),
    ensures
        part@ == bytes@.subrange(start as int, end as int),
{
    let mut part: Vec<u8> = Vec::new();
    let mut i: usize = start;
    while i < end
        invariant
            start <= i <= end <= bytes.len(),
            part@ == bytes@.subrange(start as int, i as int),
        decreases end - i,
    {
        part.push(bytes[i]);
        i = i + 1;
        assert(part@ =~= bytes@.subrange(start as int, i as int));
    }
    part
}

fn is_dot(piece: &Vec<u8>) -> (dot: bool)
    ensures
        dot == (piece@ == seq![DOT]),
{
    if piece.len() == 1 && piece[0] == DOT {
        assert(piece@ =~= seq![DOT]);
        true
    } else {
        false
    }
}

impl FilePath {
    /// The path that a text spells out.
    pub fn of(text: &str) -> (path: FilePath)
        ensures
            path@ == encode_utf8(text@),
    {
        FilePath { bytes: text.as_bytes_vec() }
    }

    /// A copy of the path.
    pub fn copy(&self) -> (path: FilePath)
        ensures
            path@ == self@,
    {
        let bytes = copy_range(&self.bytes, 0, self.bytes.len());
        assert(bytes@ =~= self.bytes@);
        FilePath { bytes }
    }

    /// The path as text, where it is UTF-8.
    pub fn to_text(&self) -> (text: Option<String>)
        ensures
            text is Some <==> valid_utf8(self@),
            text matches Some(found) ==> found@ == decode_utf8(self@),
    {
        let text = to_text_lossy(self.bytes.as_slice());
        proof {
            encode_utf8_valid_utf8(text@);
            if valid_utf8(self@) {
                decode_utf8_encode_utf8(self@);
            }
        }
        if same_bytes(text.as_str().as_bytes(), self.bytes.as_slice()) {
            Some(text)
        } else {
            None
        }
    }

    /// Whether the path starts at the root.
    pub fn is_absolute(&self) -> (rooted: bool)
        ensures
            rooted == is_rooted(self@),
    {
        self.bytes.len() > 0 && self.bytes[0] == SEPARATOR
    }

    /// `rest` taken relative to this path.
    pub fn join(&self, rest: &FilePath) -> (path: FilePath)
        ensures
            path@ == joined(self@, rest@),
    {
        if rest.is_absolute() {
            return rest.copy();
        }
        let mut path = self.copy();
        if self.bytes.len() > 0 && self.bytes[self.bytes.len() - 1] != SEPARATOR {
            path.bytes.push(SEPARATOR);
        }
        let mut tail = rest.copy();
        path.bytes.append(&mut tail.bytes);
        path
    }

    fn span_of_name(&self) -> (span: Option<(usize, usize)>)
        ensures
            span is Some <==> name_span(self@, self@.len() as int) is Some,
            span matches Some(found) ==> name_span(self@, self@.len() as int) == Some(
                (found.0 as int, found.1 as int),
            ) && found.0 < found.1 <= self@.len(),
    {
        let mut end: usize = self.bytes.len();
        loop
            invariant
                end <= self@.len(),
                name_span(self@, self@.len() as int) == name_span(self@, end as int),
            decreases end,
        {
            let mut start: usize = end;
            while start > 0 && self.bytes[start - 1] != SEPARATOR
                invariant
                    start <= end <= self@.len(),
                    piece_start(self@, end as int) == piece_start(self@, start as int),
                decreases start,
            {
                start = start - 1;
            }
            assert(piece_start(self@, end as int) == start);
            let piece = copy_range(&self.bytes, start, end);
            assert(piece.len() == 0 ==> piece@ =~= Seq::<u8>::empty());
            if piece.len() == 0 || is_dot(&piece) {
                if start == 0 {
                    return None;
                }
                end = start - 1;
            } else if piece.len() == 2 && piece[0] == DOT && piece[1] == DOT {
                assert(piece@ =~= seq![DOT, DOT]);
                return None;
            } else {
                return Some((start, end));
            }
        }
    }

    /// The last name of the path.
    pub fn file_name(&self) -> (name: Option<Vec<u8>>)
        ensures
            name is Some <==> file_name(self@) is Some,
            name matches Some(found) ==> file_name(self@) == Some(found@),
    {
        match self.span_of_name() {
            Some(span) => Some(copy_range(&self.bytes, span.0, span.1)),
            None => None,
        }
    }

    /// The last name of the path without its extension.
    pub fn file_stem(&self) -> (stem: Option<Vec<u8>>)
        ensures
            stem is Some <==> file_stem(self@) is Some,
            stem matches Some(found) ==> file_stem(self@) == Some(found@),
    {
        match self.file_name() {
            Some(name) => {
                let end = len_of_stem(&name);
                let stem = copy_range(&name, 0, end);
                assert(stem@ =~= name@.take(end as int));
                Some(stem)
            },
            None => None,
        }
    }

    /// The extension of the path's last name.
    pub fn extension(&self) -> (ext: Option<Vec<u8>>)
        ensures
            ext is Some <==> extension(self@) is Some,
            ext matches Some(found) ==> extension(self@) == Some(found@),
    {
        match self.file_name() {
            Some(name) => {
                let end = len_of_stem(&name);
                if end < name.len() {
                    let ext = copy_range(&name, end + 1, name.len());
                    assert(ext@ =~= name@.skip(end + 1));
                    Some(ext)
                } else {
                    None
                }
            },
            None => None,
        }
    }

    /// The path with the extension of its last name replaced.
    pub fn with_extension(&self, new: &FilePath) -> (path: FilePath)
        ensures
            path@ == with_extension(self@, new@),
    {
        match self.span_of_name() {
            Some(span) => {
                let name = copy_range(&self.bytes, span.0, span.1);
                let stem = len_of_stem(&name);
                let mut bytes = copy_range(&self.bytes, 0, span.0 + stem);
                assert(bytes@ =~= self@.take(span.0 + stem));
                if new.bytes.len() > 0 {
                    bytes.push(DOT);
                    let mut tail = new.copy();
                    bytes.append(&mut tail.bytes);
                }
                FilePath { bytes }
            },
            None => self.copy(),
        }
    }

    /// The components of the path.
    pub fn components(&self) -> (list: Vec<Vec<u8>>)
        ensures
            list@.map_values(|piece: Vec<u8>| piece@) == components(self@),
    {
        let ghost path = self@;
        let ghost deep = |piece: Vec<u8>| piece@;
        let ghost keep = |piece: Seq<u8>| is_component(piece);
        let mut list: Vec<Vec<u8>> = Vec::new();
        if self.is_absolute() {
            let mut root: Vec<u8> = Vec::new();
            root.push(SEPARATOR);
            assert(root@ =~= seq![SEPARATOR]);
            list.push(root);
        } else if self.bytes.len() > 0 {
            let end = self.end_of_piece(0);
            let first = copy_range(&self.bytes, 0, end);
            if is_dot(&first) {
                list.push(first);
            }
        }
        assert(list@.map_values(deep) =~= lead(path));
        let mut start: usize = 0;
        let ghost mut done: Seq<Seq<u8>> = seq![];
        assert(done + pieces_from(path, 0) =~= pieces_from(path, 0));
        assert(done.filter(keep) =~= seq![]);
        assert(list@.map_values(deep) =~= lead(path) + done.filter(keep));
        loop
            invariant
                start <= path.len(),
                path == self@,
                deep == (|piece: Vec<u8>| piece@),
                keep == (|piece: Seq<u8>| is_component(piece)),
                done + pieces_from(path, start as int) == pieces_from(path, 0),
                list@.map_values(deep) == lead(path) + done.filter(keep),
            decreases path.len() - start,
        {
            let end = self.end_of_piece(start);
            let piece = copy_range(&self.bytes, start, end);
            let ghost shown = piece@;
            let ghost before = list@;
            let kept = piece.len() > 0 && !is_dot(&piece);
            proof {
                lemma_filter_push(done, shown, keep);
            }
            if kept {
                list.push(piece);
                assert(list@.map_values(deep) =~= before.map_values(deep).push(shown));
            }
            proof {
                assert(keep(shown) == kept);
                let rest = pieces_from(path, start as int);
                assert(done.push(shown) + rest.drop_first() =~= done + rest);
                done = done.push(shown);
            }
            assert(list@.map_values(deep) =~= lead(path) + done.filter(keep));
            if end >= self.bytes.len() {
                assert(pieces_from(path, start as int) =~= seq![shown]);
                assert(done =~= pieces_from(path, 0));
                return list;
            }
            assert(pieces_from(path, start as int).drop_first() =~= pieces_from(path, end + 1));
            start = end + 1;
        }
    }

    fn end_of_piece(&self, start: usize) -> (end: usize)
        requires
            start <= self@.len(),
        ensures
            end == piece_end(self@, start as int),
            start <= end <= self@.len(),
    {
        let mut end: usize = start;
        while end < self.bytes.len() && self.bytes[end] != SEPARATOR
            invariant
                start <= end <= self@.len(),
                piece_end(self@, start as int) == piece_end(self@, end as int),
            decreases self@.len() - end,
        {
            end = end + 1;
        }
        end
    }

    /// Whether two paths have the same components.
    pub fn same_components(&self, other: &FilePath) -> (same: bool)
        ensures
            same == (components(self@) == components(other@)),
    {
        let a = self.components();
        let b = other.components();
        let ghost deep = |piece: Vec<u8>| piece@;
        let ghost da = a@.map_values(deep);
        let ghost db = b@.map_values(deep);
        if a.len() != b.len() {
            assert(da.len() != db.len());
            return false;
        }
        let mut i: usize = 0;
        while i < a.len()
            invariant
                i <= a.len(),
                a.len() == b.len(),
                deep == (|piece: Vec<u8>| piece@),
                da == a@.map_values(deep),
                db == b@.map_values(deep),
                da == components(self@),
                db == components(other@),
                forall|j: int| 0 <= j < i ==> da[j] == db[j],
            decreases a.len() - i,
        {
            assert(da[i as int] == a@[i as int]@);
            assert(db[i as int] == b@[i as int]@);
            if !same_bytes(a[i].as_slice(), b[i].as_slice()) {
                assert(da[i as int] != db[i as int]);
                return false;
            }
            i = i + 1;
        }
        assert(da =~= db);
        true
    }
}

fn len_of_stem(name: &Vec<u8>) -> (len: usize)
    ensures
        len == stem_len(name@),
        len <= name@.len(),
{
    let mut end: usize = name.len();
    while end > 0 && name[end - 1] != DOT
        invariant
            end <= name@.len(),
            last_dot(name@, name@.len() as int) == last_dot(name@, end as int),
        decreases end,
    {
        end = end - 1;
    }
    if end <= 1 {
        name.len()
    } else {
        end - 1
    }
}

proof fn lemma_filter_push<A>(s: Seq<A>, a: A, keep: spec_fn(A) -> bool)
    ensures
        s.push(a).filter(keep) == if keep(a) {
            s.filter(keep).push(a)
        } else {
            s.filter(keep)
        },
{
    reveal(Seq::filter);
    assert(s.push(a).drop_last() =~= s);
}

} // verus!
