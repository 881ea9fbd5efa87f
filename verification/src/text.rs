//! Small facts and functions about text and bytes that the other modules share.

use vstd::prelude::*;
use vstd::utf8::*;

verus! {

/// The characters of a text that may be missing.
pub open spec fn text_view(text: Option<String>) -> Option<Seq<char>> {
    match text {
        Some(found) => Some(found@),
        None => None,
    }
}

/// The decimal digit that stands for `d`.
pub open spec fn digit_char(d: nat) -> char {
    (('0' as u32) + d) as char
}

/// `n` written in decimal, without leading zeros.
pub open spec fn decimal_text(n: nat) -> Seq<char>
    decreases n,
{
    if n < 10 {
        seq![digit_char(n)]
    } else {
        decimal_text(n / 10).push(digit_char(n % 10))
    }
}

/// A byte with the ASCII capital letters turned into small ones.
pub open spec fn lower_byte(b: u8) -> u8 {
    if 65 <= b <= 90 {
        (b + 32) as u8
    } else {
        b
    }
}

/// Bytes with every ASCII capital letter turned into a small one.
pub open spec fn lower_bytes(s: Seq<u8>) -> Seq<u8> {
    s.map_values(|b: u8| lower_byte(b))
}

/// Whether `a` comes strictly before `b` in the order of dictionaries.
pub open spec fn bytes_before(a: Seq<u8>, b: Seq<u8>) -> bool
    decreases a.len(),
{
    if b.len() == 0 {
        false
    } else if a.len() == 0 {
        true
    } else if a[0] != b[0] {
        a[0] < b[0]
    } else {
        bytes_before(a.drop_first(), b.drop_first())
    }
}

/// Two texts are equal exactly when their UTF-8 encodings are.
pub proof fn lemma_encoding_is_injective(a: Seq<char>, b: Seq<char>)
    ensures
        encode_utf8(a) == encode_utf8(b) <==> a == b,
{
    encode_utf8_decode_utf8(a);
    encode_utf8_decode_utf8(b);
}

/// A text that is there is seen as it is, and one that is missing is missing.
pub proof fn lemma_text_is_seen_as_it_is(text: String)
    ensures
        text_view(Some(text)) == Some(text@),
        text_view(None) is None,
{
}

/// The number that decimal digits spell out.
pub open spec fn decimal_value(digits: Seq<char>) -> int
    decreases digits.len(),
{
    if digits.len() == 0 {
        0
    } else {
        10 * decimal_value(digits.drop_last()) + (digits.last() as int - 48)
    }
}

/// A number written in decimal is made of digits, has no needless zero in
/// front, and spells the number out.
pub proof fn lemma_decimal_spells_the_number(n: nat)
    ensures
        decimal_value(decimal_text(n)) == n,
        decimal_text(n).len() > 0,
        forall|i: int| 0 <= i < decimal_text(n).len() ==> '0' <= #[trigger] decimal_text(n)[i] <= '9',
        n > 0 ==> decimal_text(n)[0] != '0',
    decreases n,
{
    if n < 10 {
        assert(decimal_text(n).drop_last() =~= Seq::<char>::empty());
        assert(decimal_value(Seq::<char>::empty()) == 0);
    } else {
        lemma_decimal_spells_the_number(n / 10);
        let short = decimal_text(n / 10);
        assert(decimal_text(n).drop_last() =~= short);
        assert(decimal_text(n)[0] == short[0]);
        assert forall|i: int| 0 <= i < decimal_text(n).len() implies '0' <= #[trigger] decimal_text(
            n,
        )[i] <= '9' by {
            if i < short.len() {
                assert(decimal_text(n)[i] == short[i]);
            }
        }
    }
}

/// Only the 26 capital letters of ASCII change, each into the small letter 32
/// places on.
pub proof fn lemma_lowering_changes_capitals_only(s: Seq<u8>)
    ensures
        lower_bytes(s).len() == s.len(),
        forall|i: int|
            0 <= i < s.len() ==> if 65 <= s[i] <= 90 {
                #[trigger] lower_bytes(s)[i] == s[i] + 32
            } else {
                lower_bytes(s)[i] == s[i]
            },
{
}

/// Of two byte strings that first differ somewhere, the one with the smaller
/// byte there comes first.
pub proof fn lemma_first_difference_decides(a: Seq<u8>, b: Seq<u8>, at: int)
    requires
        0 <= at < a.len(),
        at < b.len(),
        forall|i: int| 0 <= i < at ==> #[trigger] a[i] == b[i],
        a[at] != b[at],
    ensures
        bytes_before(a, b) == (a[at] < b[at]),
    decreases at,
{
    if at > 0 {
        assert(a[0] == b[0]);
        assert forall|i: int| 0 <= i < at - 1 implies #[trigger] a.drop_first()[i]
            == b.drop_first()[i] by {
            assert(a[i + 1] == b[i + 1]);
        }
        lemma_first_difference_decides(a.drop_first(), b.drop_first(), at - 1);
    }
}

/// A byte string comes before every longer one that starts with it.
pub proof fn lemma_beginning_comes_first(a: Seq<u8>, rest: Seq<u8>)
    requires
        rest.len() > 0,
    ensures
        bytes_before(a, a + rest),
        !bytes_before(a + rest, a),
    decreases a.len(),
{
    if a.len() > 0 {
        lemma_beginning_comes_first(a.drop_first(), rest);
        assert((a + rest).drop_first() =~= a.drop_first() + rest);
    }
}

/// Bytes that are no text are shown with what could not be read replaced.
pub proof fn lemma_other_bytes_are_shown_replaced(bytes: Seq<u8>)
    requires
        !valid_utf8(bytes),
    ensures
        lossy_text(bytes) == replaced_text(bytes),
{
}

/// ASCII texts one behind the other are encoded one behind the other.
pub proof fn lemma_ascii_texts_join(a: Seq<char>, b: Seq<char>)
    requires
        is_ascii_chars(a),
        is_ascii_chars(b),
    ensures
        encode_utf8(a + b) == encode_utf8(a) + encode_utf8(b),
{
    assert(is_ascii_chars(a + b));
    is_ascii_chars_encode_utf8(a);
    is_ascii_chars_encode_utf8(b);
    is_ascii_chars_encode_utf8(a + b);
    assert forall|i: int| 0 <= i < (a + b).len() implies encode_utf8(a + b)[i] == (encode_utf8(a)
        + encode_utf8(b))[i] by {
        assert((a + b)[i] as u8 == encode_utf8(a + b)[i]);
        if i < a.len() {
            assert(a[i] as u8 == encode_utf8(a)[i]);
        } else {
            assert(b[i - a.len()] as u8 == encode_utf8(b)[i - a.len()]);
        }
    }
    assert(encode_utf8(a + b) =~= encode_utf8(a) + encode_utf8(b));
}

/// The bytes of a text are shown as that text.
pub proof fn lemma_encoded_text_is_shown_as_it_is(text: Seq<char>)
    ensures
        valid_utf8(encode_utf8(text)),
        lossy_text(encode_utf8(text)) == text,
{
    encode_utf8_valid_utf8(text);
    encode_utf8_decode_utf8(text);
}

proof fn lemma_before_is_irreflexive(a: Seq<u8>)
    ensures
        !bytes_before(a, a),
    decreases a.len(),
{
    if a.len() > 0 {
        lemma_before_is_irreflexive(a.drop_first());
    }
}

/// The order of dictionaries is transitive.
pub proof fn lemma_before_is_transitive(a: Seq<u8>, b: Seq<u8>, c: Seq<u8>)
    requires
        bytes_before(a, b),
        bytes_before(b, c),
    ensures
        bytes_before(a, c),
    decreases a.len(),
{
    if a.len() > 0 && a[0] == b[0] && b[0] == c[0] {
        lemma_before_is_transitive(a.drop_first(), b.drop_first(), c.drop_first());
    }
}

/// Of two byte strings exactly one comes first, or they are equal.
pub proof fn lemma_before_is_total(a: Seq<u8>, b: Seq<u8>)
    ensures
        a != b ==> bytes_before(a, b) != bytes_before(b, a),
        a == b ==> !bytes_before(a, b),
    decreases a.len(),
{
    if a == b {
        lemma_before_is_irreflexive(a);
    }
    if a.len() > 0 && b.len() > 0 && a[0] == b[0] {
        lemma_before_is_total(a.drop_first(), b.drop_first());
        if a.drop_first() == b.drop_first() {
            assert(a =~= seq![a[0]] + a.drop_first());
            assert(b =~= seq![b[0]] + b.drop_first());
        }
    } else if a.len() == 0 && b.len() == 0 {
        assert(a =~= b);
    }
}

/// A byte string that is not UTF-8 as text, with the replacement character in
/// the place of what is not.
pub uninterp spec fn replaced_text(bytes: Seq<u8>) -> Seq<char>;

/// A byte string as text: the text that it encodes, where it is UTF-8.
pub open spec fn lossy_text(bytes: Seq<u8>) -> Seq<char> {
    if valid_utf8(bytes) {
        decode_utf8(bytes)
    } else {
        replaced_text(bytes)
    }
}

/// Calls `String::from_utf8_lossy`: bytes that are UTF-8 come out as the text
/// that they encode; what stands for other bytes is named, not stated.
#[verifier::external_body]
pub(crate) fn to_text_lossy(bytes: &[u8]) -> (text: String)
    ensures
        text@ == if valid_utf8(bytes@) {
            decode_utf8(bytes@)
        } else {
            replaced_text(bytes@)
        },
{
    String::from_utf8_lossy(bytes).into_owned()
}

/// Whether two byte strings are equal.
pub fn same_bytes(a: &[u8], b: &[u8]) -> (same: bool)
    ensures
        same == (a@ == b@),
{
    if a.len() != b.len() {
        return false;
    }
    let mut i: usize = 0;
    while i < a.len()
        invariant
            i <= a.len(),
            a.len() == b.len(),
            forall|j: int| 0 <= j < i ==> a@[j] == b@[j],
        decreases a.len() - i,
    {
        if a[i] != b[i] {
            return false;
        }
        i = i + 1;
    }
    assert(a@ =~= b@);
    true
}

/// Whether two texts are equal.
pub fn same_text(a: &str, b: &str) -> (same: bool)
    ensures
        same == (a@ == b@),
{
    proof {
        lemma_encoding_is_injective(a@, b@);
    }
    same_bytes(a.as_bytes(), b.as_bytes())
}

fn digit_text(d: u64) -> (text: &'static str)
    requires
        d < 10,
    ensures
        text@ == seq![digit_char(d as nat)],
{
    proof {
        reveal_strlit("0");
        reveal_strlit("1");
        reveal_strlit("2");
        reveal_strlit("3");
        reveal_strlit("4");
        reveal_strlit("5");
        reveal_strlit("6");
        reveal_strlit("7");
        reveal_strlit("8");
        reveal_strlit("9");
    }
    match d {
        0 => "0",
        1 => "1",
        2 => "2",
        3 => "3",
        4 => "4",
        5 => "5",
        6 => "6",
        7 => "7",
        8 => "8",
        _ => "9",
    }
}

/// `n` written in decimal.
pub fn decimal(n: u64) -> (text: String)
    ensures
        text@ == decimal_text(n as nat),
    decreases n,
{
    if n < 10 {
        digit_text(n).to_owned()
    } else {
        let mut text = decimal(n / 10);
        text.append(digit_text(n % 10));
        assert(text@ =~= decimal_text((n / 10) as nat).push(digit_char((n % 10) as nat)));
        text
    }
}

/// Whether `lower_bytes(a)` comes strictly before `lower_bytes(b)`.
pub fn lower_before(a: &[u8], b: &[u8]) -> (before: bool)
    ensures
        before == bytes_before(lower_bytes(a@), lower_bytes(b@)),
{
    let ghost la = lower_bytes(a@);
    let ghost lb = lower_bytes(b@);
    let mut i: usize = 0;
    assert(la.skip(0) =~= la);
    assert(lb.skip(0) =~= lb);
    while i < a.len() && i < b.len()
        invariant
            i <= a.len(),
            i <= b.len(),
            la == lower_bytes(a@),
            lb == lower_bytes(b@),
            bytes_before(la, lb) == bytes_before(la.skip(i as int), lb.skip(i as int)),
        decreases a.len() - i,
    {
        let x = lower(a[i]);
        let y = lower(b[i]);
        assert(la.skip(i as int)[0] == x);
        assert(lb.skip(i as int)[0] == y);
        if x != y {
            return x < y;
        }
        assert(la.skip(i as int).drop_first() =~= la.skip(i + 1));
        assert(lb.skip(i as int).drop_first() =~= lb.skip(i + 1));
        i = i + 1;
    }
    i < b.len()
}

fn lower(b: u8) -> (low: u8)
    ensures
        low == lower_byte(b),
{
    if 65 <= b && b <= 90 {
        b + 32
    } else {
        b
    }
}

/// The bytes with every ASCII capital letter turned into a small one.
pub fn to_lower(bytes: &[u8]) -> (low: Vec<u8>)
    ensures
        low@ == lower_bytes(bytes@),
{
    let mut low: Vec<u8> = Vec::new();
    let mut i: usize = 0;
    while i < bytes.len()
        invariant
            i <= bytes.len(),
            low@ == lower_bytes(bytes@).take(i as int),
        decreases bytes.len() - i,
    {
        low.push(lower(bytes[i]));
        i = i + 1;
        assert(low@ =~= lower_bytes(bytes@).take(i as int));
    }
    assert(low@ =~= lower_bytes(bytes@));
    low
}

} // verus!
