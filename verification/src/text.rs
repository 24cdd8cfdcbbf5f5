//! UTF-16 decoding and the small string primitives the library builds on.
use vstd::prelude::*;

verus! {

/// Whether `value` is a Unicode scalar value (a valid `char`).
pub open spec fn is_scalar_value(value: int) -> bool {
    (0 <= value < 0xD800) || (0xE000 <= value <= 0x10FFFF)
}

/// UTF-16 decoding: `None` when `units` holds an unpaired surrogate.
pub open spec fn utf16_decode(units: Seq<u16>) -> Option<Seq<char>>
    decreases units.len(),
{
    if units.len() == 0 {
        Some(Seq::empty())
    } else {
        let first = units[0] as int;
        if first < 0xD800 || first > 0xDFFF {
            match utf16_decode(units.drop_first()) {
                Some(rest) => Some(seq![first as char] + rest),
                None => None,
            }
        } else if first <= 0xDBFF && units.len() >= 2 && 0xDC00 <= units[1] <= 0xDFFF {
            let scalar = 0x10000 + (first - 0xD800) * 1024 + (units[1] as int - 0xDC00);
            match utf16_decode(units.subrange(2, units.len() as int)) {
                Some(rest) => Some(seq![scalar as char] + rest),
                None => None,
            }
        } else {
            None
        }
    }
}

/// `char::from_u32`: the character with scalar value `value`, if there is one.
#[verifier::external_body]
pub(crate) fn char_from_u32(value: u32) -> (result: Option<char>)
    ensures
        result is Some <==> is_scalar_value(value as int),
        result matches Some(c) ==> c as int == value as int,
{
    char::from_u32(value)
}

/// `String::push`: appends one character.
#[verifier::external_body]
pub(crate) fn push_char(text: &mut String, c: char)
    ensures
        final(text)@ == old(text)@.push(c),
{
    text.push(c)
}

/// Builds a `String` holding `chars[start..end]`.
pub fn string_from_range(chars: &Vec<char>, start: usize, end: usize) -> (result: String)
    requires
        start <= end <= chars.len(),
    ensures
        result@ == chars@.subrange(start as int, end as int),
{
    let mut text = String::new();
    let mut i: usize = start;
    while i < end
        invariant
            start <= i <= end,
            end <= chars.len(),
            text@ == chars@.subrange(start as int, i as int),
        decreases end - i,
    {
        push_char(&mut text, chars[i]);
        i += 1;
        assert(text@ =~= chars@.subrange(start as int, i as int));
    }
    text
}

/// Builds a `String` holding exactly `chars`.
pub fn string_from_chars(chars: &Vec<char>) -> (result: String)
    ensures
        result@ == chars@,
{
    let mut text = String::new();
    let mut i: usize = 0;
    while i < chars.len()
        invariant
            i <= chars.len(),
            text@ == chars@.subrange(0, i as int),
        decreases chars.len() - i,
    {
        push_char(&mut text, chars[i]);
        i += 1;
        assert(text@ =~= chars@.subrange(0, i as int));
    }
    assert(chars@.subrange(0, chars@.len() as int) =~= chars@);
    text
}

/// The characters of `text`, in order.
pub fn chars_of(text: &str) -> (result: Vec<char>)
    ensures
        result@ == text@,
{
    let mut result: Vec<char> = Vec::new();
    broadcast use vstd::string::group_string_axioms;
    for c in it: text.chars()
        invariant
            result.len() == it.index(),
            forall|i: int| 0 <= i < result.len() ==> result@[i] == it.seq()[i],
    {
        result.push(c);
    }
    assert(result@ =~= text@);
    result
}

proof fn lemma_utf16_decode_append_bmp(units: Seq<u16>, start: int, decoded: Seq<char>)
    requires
        0 <= start < units.len(),
        units[start] < 0xD800 || units[start] > 0xDFFF,
    ensures
        utf16_decode(units.subrange(start, units.len() as int)) == match utf16_decode(
            units.subrange(start + 1, units.len() as int),
        ) {
            Some(rest) => Some(seq![units[start] as int as char] + rest),
            None => None,
        },
{
    let s = units.subrange(start, units.len() as int);
    assert(s.drop_first() =~= units.subrange(start + 1, units.len() as int));
}

proof fn lemma_utf16_decode_append_pair(units: Seq<u16>, start: int)
    requires
        0 <= start,
        start + 1 < units.len(),
        0xD800 <= units[start] <= 0xDBFF,
        0xDC00 <= units[start + 1] <= 0xDFFF,
    ensures
        utf16_decode(units.subrange(start, units.len() as int)) == match utf16_decode(
            units.subrange(start + 2, units.len() as int),
        ) {
            Some(rest) => Some(
                seq![
                    (0x10000 + (units[start] as int - 0xD800) * 1024 + (units[start + 1] as int
                        - 0xDC00)) as char,
                ] + rest,
            ),
            None => None,
        },
{
    let s = units.subrange(start, units.len() as int);
    assert(s.subrange(2, s.len() as int) =~= units.subrange(start + 2, units.len() as int));
}

/// Decodes UTF-16 code units; `None` on an unpaired surrogate.
pub fn decode_utf16(units: &[u16]) -> (result: Option<String>)
    ensures
        match utf16_decode(units@) {
            Some(chars) => result matches Some(text) && text@ == chars,
            None => result is None,
        },
{
    let mut chars: Vec<char> = Vec::new();
    let mut i: usize = 0;
    assert(units@.subrange(0, units@.len() as int) =~= units@);
    while i < units.len()
        invariant
            i <= units.len(),
            utf16_decode(units@) == match utf16_decode(
                units@.subrange(i as int, units@.len() as int),
            ) {
                Some(rest) => Some(chars@ + rest),
                None => None::<Seq<char>>,
            },
        decreases units.len() - i,
    {
        let first = units[i];
        if first < 0xD800 || first > 0xDFFF {
            proof {
                lemma_utf16_decode_append_bmp(units@, i as int, chars@);
            }
            let c = char_from_u32(first as u32).unwrap();
            let ghost before = chars@;
            chars.push(c);
            proof {
                match utf16_decode(units@.subrange(i + 1, units@.len() as int)) {
                    Some(rest) => {
                        assert(before + (seq![c] + rest) =~= chars@ + rest);
                    },
                    None => {},
                }
            }
            i += 1;
        } else if first <= 0xDBFF && i + 1 < units.len() && 0xDC00 <= units[i + 1] && units[i
            + 1] <= 0xDFFF {
            proof {
                lemma_utf16_decode_append_pair(units@, i as int);
            }
            let second = units[i + 1];
            let scalar: u32 = 0x10000 + (first as u32 - 0xD800) * 1024 + (second as u32 - 0xDC00);
            let c = char_from_u32(scalar).unwrap();
            let ghost before = chars@;
            chars.push(c);
            proof {
                match utf16_decode(units@.subrange(i + 2, units@.len() as int)) {
                    Some(rest) => {
                        assert(before + (seq![c] + rest) =~= chars@ + rest);
                    },
                    None => {},
                }
            }
            i += 2;
        } else {
            proof {
                let s = units@.subrange(i as int, units@.len() as int);
                assert(s[0] == first);
            }
            return None;
        }
    }
    assert(units@.subrange(units@.len() as int, units@.len() as int) =~= Seq::<u16>::empty());
    assert(chars@ + Seq::<char>::empty() =~= chars@);
    Some(string_from_chars(&chars))
}


/// The UTF-16 code units of one character.
pub open spec fn char_units(c: char) -> Seq<u16> {
    let v = (c as u32) as int;
    if v < 0x10000 {
        seq![v as u16]
    } else {
        seq![(0xD800 + (v - 0x10000) / 1024) as u16, (0xDC00 + (v - 0x10000) % 1024) as u16]
    }
}

/// UTF-16 encoding of `chars`.
pub open spec fn utf16_encode(chars: Seq<char>) -> Seq<u16>
    decreases chars.len(),
{
    if chars.len() == 0 {
        Seq::empty()
    } else {
        char_units(chars[0]) + utf16_encode(chars.drop_first())
    }
}

proof fn lemma_utf16_encode_push(chars: Seq<char>, c: char)
    ensures
        utf16_encode(chars.push(c)) == utf16_encode(chars) + char_units(c),
    decreases chars.len(),
{
    if chars.len() == 0 {
        assert(chars.push(c).drop_first() =~= Seq::<char>::empty());
        assert(utf16_encode(Seq::<char>::empty()) =~= Seq::<u16>::empty());
        assert(utf16_encode(chars.push(c)) =~= char_units(c));
    } else {
        assert(chars.push(c).drop_first() =~= chars.drop_first().push(c));
        lemma_utf16_encode_push(chars.drop_first(), c);
        assert(utf16_encode(chars.push(c)) =~= utf16_encode(chars) + char_units(c));
    }
}

/// Decoding the units of one character and then `rest` gives the character
/// followed by the decoding of `rest`.
proof fn lemma_utf16_decode_char_units(c: char, rest: Seq<u16>)
    ensures
        utf16_decode(char_units(c) + rest) == match utf16_decode(rest) {
            Some(tail) => Some(seq![c] + tail),
            None => None,
        },
{
    let v = (c as u32) as int;
    vstd::utf8::char_is_scalar(c);
    vstd::utf8::char_u32_cast(c, c as u32);
    let units = char_units(c) + rest;
    if v < 0x10000 {
        assert(units.drop_first() =~= rest);
        assert(units[0] as int == v);
        assert(v < 0xD800 || v > 0xDFFF);
        assert((v as char) == c);
    } else {
        let w = v - 0x10000;
        assert(0 <= w < 0x100000);
        assert(0 <= w / 1024 < 1024) by (nonlinear_arith)
            requires
                0 <= w < 0x100000,
        ;
        assert(0 <= w % 1024 < 1024) by (nonlinear_arith)
            requires
                0 <= w,
        ;
        assert(w == (w / 1024) * 1024 + w % 1024) by (nonlinear_arith);
        assert(units[0] as int == 0xD800 + w / 1024);
        assert(units[1] as int == 0xDC00 + w % 1024);
        assert(units.subrange(2, units.len() as int) =~= rest);
        assert(0x10000 + (units[0] as int - 0xD800) * 1024 + (units[1] as int - 0xDC00) == v);
    }
}

/// Decoding an encoding gives the characters back.
pub proof fn lemma_utf16_roundtrip(chars: Seq<char>)
    ensures
        utf16_decode(utf16_encode(chars)) == Some(chars),
    decreases chars.len(),
{
    if chars.len() > 0 {
        lemma_utf16_roundtrip(chars.drop_first());
        lemma_utf16_decode_char_units(chars[0], utf16_encode(chars.drop_first()));
        assert(seq![chars[0]] + chars.drop_first() =~= chars);
    }
}

/// The UTF-16 code units of `text`.
pub fn encode_utf16(text: &str) -> (result: Vec<u16>)
    ensures
        result@ == utf16_encode(text@),
{
    let chars = chars_of(text);
    let mut units: Vec<u16> = Vec::new();
    let mut i: usize = 0;
    assert(chars@.subrange(0, 0) =~= Seq::<char>::empty());
    while i < chars.len()
        invariant
            i <= chars@.len(),
            chars@ == text@,
            units@ == utf16_encode(chars@.subrange(0, i as int)),
        decreases chars.len() - i,
    {
        let c = chars[i];
        let v = c as u32;
        proof {
            vstd::utf8::char_is_scalar(c);
            lemma_utf16_encode_push(chars@.subrange(0, i as int), c);
            assert(chars@.subrange(0, i as int).push(c) =~= chars@.subrange(0, i + 1));
        }
        if v < 0x10000 {
            units.push(v as u16);
        } else {
            let w = v - 0x10000;
            units.push((0xD800 + w / 1024) as u16);
            units.push((0xDC00 + w % 1024) as u16);
        }
        proof {
            assert(units@ =~= utf16_encode(chars@.subrange(0, i + 1)));
        }
        i += 1;
    }
    assert(chars@.subrange(0, chars@.len() as int) =~= chars@);
    units
}


/// `prefix` followed by `detail`.
pub fn concat(prefix: &str, detail: &str) -> (text: String)
    ensures
        text@ == prefix@ + detail@,
{
    let mut chars = chars_of(prefix);
    let mut rest = chars_of(detail);
    chars.append(&mut rest);
    string_from_chars(&chars)
}

/// The NUL-terminated UTF-16 code units of `text`, as Windows APIs take them.
pub fn wide(text: &str) -> (result: Vec<u16>)
    ensures
        result@ == utf16_encode(text@).push(0u16),
{
    let mut units = encode_utf16(text);
    units.push(0);
    units
}

/// Lossy UTF-16 decoding: each unpaired surrogate becomes U+FFFD.
pub open spec fn utf16_decode_lossy(units: Seq<u16>) -> Seq<char>
    decreases units.len(),
{
    if units.len() == 0 {
        Seq::empty()
    } else {
        let first = units[0] as int;
        if first < 0xD800 || first > 0xDFFF {
            seq![first as char] + utf16_decode_lossy(units.drop_first())
        } else if first <= 0xDBFF && units.len() >= 2 && 0xDC00 <= units[1] <= 0xDFFF {
            let scalar = 0x10000 + (first - 0xD800) * 1024 + (units[1] as int - 0xDC00);
            seq![scalar as char] + utf16_decode_lossy(units.subrange(2, units.len() as int))
        } else {
            seq!['\u{FFFD}'] + utf16_decode_lossy(units.drop_first())
        }
    }
}

/// Decodes UTF-16 code units, replacing each unpaired surrogate with U+FFFD.
pub fn decode_utf16_lossy(units: &[u16]) -> (result: String)
    ensures
        result@ == utf16_decode_lossy(units@),
{
    let mut chars: Vec<char> = Vec::new();
    let mut i: usize = 0;
    assert(units@.subrange(0, units@.len() as int) =~= units@);
    while i < units.len()
        invariant
            i <= units.len(),
            utf16_decode_lossy(units@) == chars@ + utf16_decode_lossy(
                units@.subrange(i as int, units@.len() as int),
            ),
        decreases units.len() - i,
    {
        let first = units[i];
        let ghost rest = units@.subrange(i as int, units@.len() as int);
        let ghost before = chars@;
        if first < 0xD800 || first > 0xDFFF {
            let c = char_from_u32(first as u32).unwrap();
            chars.push(c);
            proof {
                assert(rest.drop_first() =~= units@.subrange(i + 1, units@.len() as int));
                assert(before + (seq![c] + utf16_decode_lossy(rest.drop_first())) =~= chars@
                    + utf16_decode_lossy(rest.drop_first()));
            }
            i += 1;
        } else if first <= 0xDBFF && i + 1 < units.len() && 0xDC00 <= units[i + 1] && units[i
            + 1] <= 0xDFFF {
            let second = units[i + 1];
            let scalar: u32 = 0x10000 + (first as u32 - 0xD800) * 1024 + (second as u32 - 0xDC00);
            let c = char_from_u32(scalar).unwrap();
            chars.push(c);
            proof {
                assert(rest.subrange(2, rest.len() as int) =~= units@.subrange(
                    i + 2,
                    units@.len() as int,
                ));
                assert(rest[1] == second);
                assert(before + (seq![c] + utf16_decode_lossy(rest.subrange(2, rest.len() as int)))
                    =~= chars@ + utf16_decode_lossy(rest.subrange(2, rest.len() as int)));
            }
            i += 2;
        } else {
            let c = char_from_u32(0xFFFD).unwrap();
            chars.push(c);
            proof {
                assert(rest.drop_first() =~= units@.subrange(i + 1, units@.len() as int));
                assert(rest.len() >= 2 ==> rest[1] == units@[i + 1]);
                assert(before + (seq!['\u{FFFD}'] + utf16_decode_lossy(rest.drop_first())) =~= chars@
                    + utf16_decode_lossy(rest.drop_first()));
            }
            i += 1;
        }
    }
    assert(units@.subrange(units@.len() as int, units@.len() as int) =~= Seq::<u16>::empty());
    assert(chars@ + Seq::<char>::empty() =~= chars@);
    string_from_chars(&chars)
}


/// Whether two strings hold the same characters.
pub fn str_equal(a: &str, b: &str) -> (equal: bool)
    ensures
        equal == (a@ == b@),
{
    let left = chars_of(a);
    let right = chars_of(b);
    if left.len() != right.len() {
        return false;
    }
    let mut i: usize = 0;
    while i < left.len()
        invariant
            i <= left@.len(),
            left@ == a@,
            right@ == b@,
            left@.len() == right@.len(),
            forall|j: int| 0 <= j < i ==> left@[j] == right@[j],
        decreases left.len() - i,
    {
        if left[i] != right[i] {
            return false;
        }
        i += 1;
    }
    assert(left@ =~= right@);
    true
}

/// The units before the first NUL (all of them when there is none).
pub open spec fn until_nul(units: Seq<u16>) -> Seq<u16>
    decreases units.len(),
{
    if units.len() == 0 || units[0] == 0 {
        Seq::empty()
    } else {
        seq![units[0]] + until_nul(units.drop_first())
    }
}

/// Copies the units of `units[..limit]` that come before its first NUL.
pub fn copy_until_nul(units: &[u16], limit: usize) -> (result: Vec<u16>)
    requires
        limit <= units@.len(),
    ensures
        result@ == until_nul(units@.subrange(0, limit as int)),
{
    let ghost whole = units@.subrange(0, limit as int);
    let mut prefix: Vec<u16> = Vec::new();
    let mut k: usize = 0;
    assert(whole.subrange(0, whole.len() as int) =~= whole);
    while k < limit && units[k] != 0
        invariant
            k <= limit,
            limit <= units@.len(),
            whole == units@.subrange(0, limit as int),
            prefix@ == whole.subrange(0, k as int),
            until_nul(whole) == prefix@ + until_nul(whole.subrange(k as int, whole.len() as int)),
        decreases limit - k,
    {
        let ghost rest = whole.subrange(k as int, whole.len() as int);
        prefix.push(units[k]);
        proof {
            assert(rest[0] == units@[k as int]);
            assert(rest.drop_first() =~= whole.subrange(k + 1, whole.len() as int));
            assert(prefix@ =~= whole.subrange(0, k + 1));
        }
        k += 1;
    }
    proof {
        let rest = whole.subrange(k as int, whole.len() as int);
        if k < limit {
            assert(rest[0] == 0);
        }
        assert(until_nul(rest) =~= Seq::<u16>::empty());
        assert(prefix@ + Seq::<u16>::empty() =~= prefix@);
    }
    prefix
}

/// Whether `text` begins with `prefix`.
pub open spec fn has_prefix(text: Seq<char>, prefix: Seq<char>) -> bool {
    prefix.len() <= text.len() && text.subrange(0, prefix.len() as int) == prefix
}

/// `text` without `prefix`, when it begins with it (`str::strip_prefix`).
pub fn strip_prefix(text: &str, prefix: &str) -> (result: Option<String>)
    ensures
        match result {
            Some(rest) => has_prefix(text@, prefix@) && rest@ == text@.subrange(prefix@.len() as int, text@.len() as int),
            None => !has_prefix(text@, prefix@),
        },
{
    let chars = chars_of(text);
    let head = chars_of(prefix);
    if head.len() > chars.len() {
        return None;
    }
    let mut i: usize = 0;
    while i < head.len()
        invariant
            i <= head@.len() <= chars@.len(),
            chars@ == text@,
            head@ == prefix@,
            forall|k: int| 0 <= k < i ==> chars@[k] == head@[k],
        decreases head.len() - i,
    {
        if chars[i] != head[i] {
            assert(chars@.subrange(0, head@.len() as int)[i as int] != head@[i as int]);
            return None;
        }
        i += 1;
    }
    assert(chars@.subrange(0, head@.len() as int) =~= head@);
    Some(string_from_range(&chars, head.len(), chars.len()))
}

} // verus!
