//! Colours, their hexadecimal texts, and what the Material colour crate
//! computes from them.

use vstd::prelude::*;
use vstd::utf8::*;

use crate::frame::Sampling;

verus! {

/// A colour with its opacity.
#[derive(Debug, Clone, Copy, PartialEq, Eq, Structural)]
pub struct Argb {
    pub alpha: u8,
    pub red: u8,
    pub green: u8,
    pub blue: u8,
}

/// The side, in pixels, of the square that an image is shrunk to before its
/// colours are counted.
pub const SAMPLE_SIDE: u32 = 128;

/// The number of colour roles in a scheme.
pub const ROLES: usize = 17;

/// The small hexadecimal digit that stands for `n`.
pub open spec fn hex_char(n: nat) -> char {
    if n < 10 {
        (('0' as u32) + n) as char
    } else {
        (('a' as u32) + (n - 10)) as char
    }
}

/// A byte as two hexadecimal digits.
pub open spec fn hex_pair(b: u8) -> Seq<char> {
    seq![hex_char((b / 16) as nat), hex_char((b % 16) as nat)]
}

/// A colour as `#rrggbb`.
pub open spec fn hex_text(color: Argb) -> Seq<char> {
    seq!['#'] + hex_pair(color.red) + hex_pair(color.green) + hex_pair(color.blue)
}

/// Whether a character is a hexadecimal digit, capital or small.
pub open spec fn is_hex_digit(c: char) -> bool {
    ('0' <= c <= '9') || ('a' <= c <= 'f') || ('A' <= c <= 'F')
}

/// What a hexadecimal digit stands for.
pub open spec fn hex_digit_value(c: char) -> int {
    if '0' <= c <= '9' {
        (c as int) - ('0' as int)
    } else if 'a' <= c <= 'f' {
        (c as int) - ('a' as int) + 10
    } else {
        (c as int) - ('A' as int) + 10
    }
}

/// Whether all characters are hexadecimal digits.
pub open spec fn all_hex(s: Seq<char>) -> bool {
    forall|i: int| 0 <= i < s.len() ==> is_hex_digit(#[trigger] s[i])
}

/// The byte that two hexadecimal digits from index `i` on stand for.
pub open spec fn pair_value(s: Seq<char>, i: int) -> u8 {
    (16 * hex_digit_value(s[i]) + hex_digit_value(s[i + 1])) as u8
}

/// A text without the `#` that it may start with.
pub open spec fn strip_hash(s: Seq<char>) -> Seq<char> {
    if s.len() > 0 && s[0] == '#' {
        s.drop_first()
    } else {
        s
    }
}

/// The colour that a text names: after an optional `#`, three digits (each
/// doubled), six, or eight with the opacity first. Where there are eight
/// characters the first may be a plus sign, which counts as a zero.
pub open spec fn parsed_color(s: Seq<char>) -> Option<Argb> {
    let d = strip_hash(s);
    if d.len() == 3 && all_hex(d) {
        Some(
            Argb {
                alpha: 255,
                red: (17 * hex_digit_value(d[0])) as u8,
                green: (17 * hex_digit_value(d[1])) as u8,
                blue: (17 * hex_digit_value(d[2])) as u8,
            },
        )
    } else if d.len() == 6 && all_hex(d) {
        Some(
            Argb {
                alpha: 255,
                red: pair_value(d, 0),
                green: pair_value(d, 2),
                blue: pair_value(d, 4),
            },
        )
    } else if d.len() == 8 && all_hex(d.drop_first()) && (is_hex_digit(d[0]) || d[0] == '+') {
        Some(
            Argb {
                alpha: if d[0] == '+' {
                    hex_digit_value(d[1]) as u8
                } else {
                    pair_value(d, 0)
                },
                red: pair_value(d, 2),
                green: pair_value(d, 4),
                blue: pair_value(d, 6),
            },
        )
    } else {
        None
    }
}

/// Whether a text can be tried as a colour: three bytes behind the optional
/// `#` are three characters.
pub open spec fn is_color_candidate(s: Seq<char>) -> bool {
    encode_utf8(strip_hash(s)).len() == 3 ==> strip_hash(s).len() == 3
}

/// Whether a text is `#` and six hexadecimal digits.
pub open spec fn is_hex_color_text(s: Seq<char>) -> bool {
    s.len() == 7 && s[0] == '#' && all_hex(s.drop_first())
}

/// The colours of the dark scheme and of the light one that the Material
/// theme builder gives for a source colour, in the order of the fields of
/// `catalog::MaterialScheme`.
pub uninterp spec fn theme_roles(source: Argb) -> (Seq<Argb>, Seq<Argb>);

/// Whether the image crate decodes a file's bytes, its format guessed from
/// how they start.
pub uninterp spec fn image_decodes(data: Seq<u8>) -> bool;

/// The source colour that the Material image reader extracts from a file's
/// bytes, once the image is made a square of `side` pixels.
pub uninterp spec fn source_color(data: Seq<u8>, side: u32, sampling: Sampling) -> Argb;

/// Calls `material_colors::color::Argb::to_hex_with_pound`: the three colour
/// bytes, each as two small hexadecimal digits, behind a `#`; the opacity is
/// not shown.
#[verifier::external_body]
pub(crate) fn to_hex_with_pound(color: Argb) -> (text: String)
    ensures
        text@ == hex_text(color),
{
    material_colors::color::Argb::new(
        color.alpha,
        color.red,
        color.green,
        color.blue,
    ).to_hex_with_pound()
}

/// Calls `from_str` of `material_colors::color::Argb`. It panics on a text of
/// three bytes that are not three characters. The plus sign comes from
/// `u32::from_str_radix`, which reads the eight characters.
#[verifier::external_body]
pub(crate) fn color_from_str(hex: &str) -> (color: Option<Argb>)
    requires
        is_color_candidate(hex@),
    ensures
        color == parsed_color(hex@),
{
    match hex.parse::<material_colors::color::Argb>() {
        Ok(c) => Some(Argb { alpha: c.alpha, red: c.red, green: c.green, blue: c.blue }),
        Err(_) => None,
    }
}

/// Calls `material_colors::theme::ThemeBuilder::with_source` and `build`, and
/// lists the colours of both schemes in the order of the fields of
/// `catalog::MaterialScheme`. What the colours are is the colour model's own
/// matter: they are named, not stated.
#[verifier::external_body]
pub(crate) fn build_theme(source: Argb) -> (roles: (Vec<Argb>, Vec<Argb>))
    ensures
        roles.0@ == theme_roles(source).0,
        roles.1@ == theme_roles(source).1,
        roles.0@.len() == ROLES,
        roles.1@.len() == ROLES,
{
    let start = material_colors::color::Argb::new(source.alpha, source.red, source.green, source.blue);
    let theme = material_colors::theme::ThemeBuilder::with_source(start).build();
    let list = |s: material_colors::scheme::Scheme| {
        [
            s.primary, s.on_primary, s.primary_container, s.on_primary_container, s.secondary,
            s.on_secondary, s.tertiary, s.on_tertiary, s.background, s.on_background, s.surface,
            s.on_surface, s.surface_container, s.surface_variant, s.on_surface_variant, s.outline,
            s.outline_variant,
        ].map(|c| Argb { alpha: c.alpha, red: c.red, green: c.green, blue: c.blue }).to_vec()
    };
    (list(theme.schemes.dark), list(theme.schemes.light))
}

/// Calls `image::ImageReader::decode` on a file's bytes, with the format
/// guessed by `with_guessed_format`, and says whether it gave an image.
#[verifier::external_body]
pub(crate) fn decodes(data: &[u8]) -> (ok: bool)
    ensures
        ok == image_decodes(data@),
{
    match image::ImageReader::new(std::io::Cursor::new(data)).with_guessed_format() {
        Ok(reader) => reader.decode().is_ok(),
        Err(_) => false,
    }
}

/// Calls `read`, `Image::resize` (with the asked filter) and `extract_color` of
/// `material_colors::image`. `read` panics on bytes that do not decode; on
/// bytes that do, it gives an image, since reading from memory does not fail.
#[verifier::external_body]
pub(crate) fn extract_source_color(data: &[u8], side: u32, sampling: Sampling) -> (color: Argb)
    requires
        image_decodes(data@),
        0 < side <= SAMPLE_SIDE,
    ensures
        color == source_color(data@, side, sampling),
{
    let mut image = material_colors::image::ImageReader::read(data).unwrap();
    let filter = match sampling {
        Sampling::Triangle => material_colors::image::FilterType::Triangle,
        Sampling::Lanczos3 => material_colors::image::FilterType::Lanczos3,
    };
    image.resize(side, side, filter);
    let c = material_colors::image::ImageReader::extract_color(&image);
    Argb { alpha: c.alpha, red: c.red, green: c.green, blue: c.blue }
}

fn is_hex_char(c: char) -> (hex: bool)
    ensures
        hex == is_hex_digit(c),
{
    ('0' <= c && c <= '9') || ('a' <= c && c <= 'f') || ('A' <= c && c <= 'F')
}

/// Whether a text is `#` and six hexadecimal digits.
pub fn is_hex_color(value: &str) -> (ok: bool)
    ensures
        ok == is_hex_color_text(value@),
{
    if value.unicode_len() != 7 || value.get_char(0) != '#' {
        return false;
    }
    let mut i: usize = 1;
    while i < 7
        invariant
            1 <= i <= 7,
            value@.len() == 7,
            value@[0] == '#',
            forall|j: int| 0 <= j < i - 1 ==> is_hex_digit(#[trigger] value@.drop_first()[j]),
        decreases 7 - i,
    {
        assert(value@.drop_first()[i - 1] == value@[i as int]);
        if !is_hex_char(value.get_char(i)) {
            return false;
        }
        i = i + 1;
    }
    true
}

/// Whether a text can be tried as a colour.
pub fn can_be_color(hex: &str) -> (ok: bool)
    ensures
        ok == is_color_candidate(hex@),
{
    let count = hex.unicode_len();
    let bytes = hex.as_bytes().len();
    let hash = count > 0 && hex.get_char(0) == '#';
    proof {
        if hash {
            lemma_hash_is_one_byte(hex@);
        }
    }
    if hash {
        bytes != 4 || count == 4
    } else {
        bytes != 3 || count == 3
    }
}

/// A colour text is seven characters: a `#` and then only `0` to `9`, `A` to
/// `F` and `a` to `f`.
pub proof fn lemma_color_text_by_its_characters(s: Seq<char>)
    ensures
        is_hex_color_text(s) <==> {
            &&& s.len() == 7
            &&& s[0] as int == 35
            &&& forall|i: int|
                1 <= i < 7 ==> {
                    ||| 48 <= #[trigger] s[i] as int <= 57
                    ||| 65 <= s[i] as int <= 70
                    ||| 97 <= s[i] as int <= 102
                }
        },
{
    let rest = s.drop_first();
    if s.len() == 7 {
        if is_hex_color_text(s) {
            assert forall|i: int| 1 <= i < 7 implies {
                ||| 48 <= #[trigger] s[i] as int <= 57
                ||| 65 <= s[i] as int <= 70
                ||| 97 <= s[i] as int <= 102
            } by {
                assert(is_hex_digit(rest[i - 1]));
            }
        }
        assert forall|i: int| 0 <= i < rest.len() implies rest[i] == #[trigger] s[i + 1] by {}
        if forall|i: int|
            1 <= i < 7 ==> {
                ||| 48 <= #[trigger] s[i] as int <= 57
                ||| 65 <= s[i] as int <= 70
                ||| 97 <= s[i] as int <= 102
            } {
            assert forall|i: int| 0 <= i < rest.len() implies is_hex_digit(#[trigger] rest[i]) by {
                assert(rest[i] == s[i + 1]);
            }
        }
    }
}

/// A text can be tried as a colour unless three bytes stand behind its optional
/// `#` that are not three characters.
pub proof fn lemma_color_candidates(rest: Seq<char>)
    ensures
        is_color_candidate(seq!['#'] + rest) <==> (encode_utf8(rest).len() != 3 || rest.len() == 3),
        rest.len() == 0 || rest[0] != '#' ==> (is_color_candidate(rest) <==> (encode_utf8(rest).len()
            != 3 || rest.len() == 3)),
{
    assert((seq!['#'] + rest).drop_first() =~= rest);
}

/// A text that is `#` and six hexadecimal digits names an opaque colour.
pub proof fn lemma_hex_color_parses(s: Seq<char>)
    requires
        is_hex_color_text(s),
    ensures
        is_color_candidate(s),
        parsed_color(s) is Some,
        parsed_color(s)->0.alpha == 255,
{
    let d = strip_hash(s);
    assert(d.len() == 6);
    lemma_encoding_is_no_shorter(d);
}

proof fn lemma_hex_char(n: nat)
    requires
        n < 16,
    ensures
        is_hex_digit(hex_char(n)),
        hex_digit_value(hex_char(n)) == n,
{
}

/// The text of a colour is `#` and six hexadecimal digits, and names the
/// colour again, made opaque.
pub proof fn lemma_hex_text_names_its_color(color: Argb)
    ensures
        is_hex_color_text(hex_text(color)),
        parsed_color(hex_text(color)) == Some(Argb { alpha: 255, ..color }),
{
    let s = hex_text(color);
    let d = s.drop_first();
    assert(d =~= hex_pair(color.red) + hex_pair(color.green) + hex_pair(color.blue));
    lemma_hex_char((color.red / 16) as nat);
    lemma_hex_char((color.red % 16) as nat);
    lemma_hex_char((color.green / 16) as nat);
    lemma_hex_char((color.green % 16) as nat);
    lemma_hex_char((color.blue / 16) as nat);
    lemma_hex_char((color.blue % 16) as nat);
    assert(strip_hash(s) == d);
}

proof fn lemma_encoding_is_no_shorter(s: Seq<char>)
    ensures
        encode_utf8(s).len() >= s.len(),
    decreases s.len(),
{
    if s.len() > 0 {
        lemma_encoding_is_no_shorter(s.drop_first());
    }
}

proof fn lemma_hash_is_one_byte(s: Seq<char>)
    requires
        s.len() > 0,
        s[0] == '#',
    ensures
        encode_utf8(s).len() == encode_utf8(s.drop_first()).len() + 1,
{
    assert(encode_scalar('#' as u32).len() == 1);
}

} // verus!
