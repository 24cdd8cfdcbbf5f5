//! Text lists as settings store them: splitting on separator characters,
//! trimming Unicode whitespace, ASCII lowercasing, joining with newlines,
//! and sorted sets of strings.
use vstd::prelude::*;

use crate::text::{chars_of, string_from_chars};

verus! {

/// Unicode `White_Space`, as `char::is_whitespace` tests it.
pub open spec fn is_whitespace(c: char) -> bool {
    let v = c as u32;
    ||| 9 <= v <= 13
    ||| v == 32
    ||| v == 0x85
    ||| v == 0xA0
    ||| v == 0x1680
    ||| 0x2000 <= v <= 0x200A
    ||| v == 0x2028
    ||| v == 0x2029
    ||| v == 0x202F
    ||| v == 0x205F
    ||| v == 0x3000
}

/// Whether `c` is Unicode whitespace.
pub fn char_is_whitespace(c: char) -> (result: bool)
    ensures
        result == is_whitespace(c),
{
    let v = c as u32;
    (9 <= v && v <= 13) || v == 32 || v == 0x85 || v == 0xA0 || v == 0x1680 || (0x2000 <= v && v
        <= 0x200A) || v == 0x2028 || v == 0x2029 || v == 0x202F || v == 0x205F || v == 0x3000
}

/// `s` without leading whitespace.
pub open spec fn trim_start(s: Seq<char>) -> Seq<char>
    decreases s.len(),
{
    if s.len() > 0 && is_whitespace(s[0]) {
        trim_start(s.drop_first())
    } else {
        s
    }
}

/// `s` without trailing whitespace.
pub open spec fn trim_end(s: Seq<char>) -> Seq<char>
    decreases s.len(),
{
    if s.len() > 0 && is_whitespace(s.last()) {
        trim_end(s.drop_last())
    } else {
        s
    }
}

/// `s` without leading and trailing whitespace (`str::trim`).
pub open spec fn trim(s: Seq<char>) -> Seq<char> {
    trim_end(trim_start(s))
}

/// The trimmed characters of `chars[start..end]`.
pub fn trim_range(chars: &Vec<char>, start: usize, end: usize) -> (result: Vec<char>)
    requires
        start <= end <= chars@.len(),
    ensures
        result@ == trim(chars@.subrange(start as int, end as int)),
{
    let ghost whole = chars@.subrange(start as int, end as int);
    let mut a = start;
    while a < end && char_is_whitespace(chars[a])
        invariant
            start <= a <= end,
            end <= chars@.len(),
            whole == chars@.subrange(start as int, end as int),
            trim_start(whole) == trim_start(chars@.subrange(a as int, end as int)),
        decreases end - a,
    {
        proof {
            let s = chars@.subrange(a as int, end as int);
            assert(s.drop_first() =~= chars@.subrange(a + 1, end as int));
        }
        a += 1;
    }
    let ghost front = chars@.subrange(a as int, end as int);
    assert(trim_start(front) == front);
    let mut b = end;
    while b > a && char_is_whitespace(chars[b - 1])
        invariant
            a <= b <= end,
            end <= chars@.len(),
            front == chars@.subrange(a as int, end as int),
            trim_end(front) == trim_end(chars@.subrange(a as int, b as int)),
        decreases b - a,
    {
        proof {
            let s = chars@.subrange(a as int, b as int);
            assert(s.drop_last() =~= chars@.subrange(a as int, b - 1));
        }
        b -= 1;
    }
    let mut out: Vec<char> = Vec::new();
    let mut k = a;
    while k < b
        invariant
            a <= k <= b,
            b <= chars@.len(),
            out@ == chars@.subrange(a as int, k as int),
        decreases b - k,
    {
        out.push(chars[k]);
        k += 1;
        assert(out@ =~= chars@.subrange(a as int, k as int));
    }
    out
}

/// ASCII lowercasing of one character.
pub open spec fn ascii_lower(c: char) -> char {
    if 'A' <= c && c <= 'Z' {
        (((c as u32) + 32) as u8) as char
    } else {
        c
    }
}

/// `str::to_ascii_lowercase`.
pub open spec fn lower_ascii(s: Seq<char>) -> Seq<char> {
    Seq::new(s.len(), |i: int| ascii_lower(s[i]))
}

/// ASCII-lowercases `chars` in place.
pub fn lowercase_ascii(chars: &mut Vec<char>)
    ensures
        final(chars)@ == lower_ascii(old(chars)@),
{
    let ghost initial = chars@;
    let mut i: usize = 0;
    while i < chars.len()
        invariant
            i <= chars@.len(),
            chars@.len() == initial.len(),
            forall|j: int| 0 <= j < i ==> chars@[j] == ascii_lower(initial[j]),
            forall|j: int| i <= j < chars@.len() ==> chars@[j] == initial[j],
        decreases chars.len() - i,
    {
        let c = chars[i];
        if 'A' <= c && c <= 'Z' {
            chars.set(i, (((c as u32) + 32) as u8) as char);
        }
        i += 1;
    }
    assert(chars@ =~= lower_ascii(initial));
}

/// The pieces of `s` between separator characters (`str::split` with a
/// character predicate): one more piece than there are separators.
pub open spec fn split_pieces(s: Seq<char>, sep: spec_fn(char) -> bool) -> Seq<Seq<char>>
    decreases s.len(),
{
    if s.len() == 0 {
        seq![Seq::empty()]
    } else {
        let pieces = split_pieces(s.drop_last(), sep);
        if sep(s.last()) {
            pieces.push(Seq::empty())
        } else {
            pieces.update(pieces.len() - 1, pieces.last().push(s.last()))
        }
    }
}

proof fn lemma_split_pieces_nonempty(s: Seq<char>, sep: spec_fn(char) -> bool)
    ensures
        split_pieces(s, sep).len() >= 1,
    decreases s.len(),
{
    if s.len() > 0 {
        lemma_split_pieces_nonempty(s.drop_last(), sep);
    }
}

/// The non-empty values among `pieces`, in order.
pub open spec fn non_empty(pieces: Seq<Seq<char>>) -> Seq<Seq<char>>
    decreases pieces.len(),
{
    if pieces.len() == 0 {
        Seq::empty()
    } else {
        let rest = non_empty(pieces.drop_last());
        if pieces.last().len() > 0 {
            rest.push(pieces.last())
        } else {
            rest
        }
    }
}

/// `items` joined with `\n` between them.
pub open spec fn join_lines(items: Seq<Seq<char>>) -> Seq<char>
    decreases items.len(),
{
    if items.len() == 0 {
        Seq::empty()
    } else if items.len() == 1 {
        items[0]
    } else {
        join_lines(items.drop_last()) + seq!['\n'] + items.last()
    }
}

/// Joins `items` with `\n` (`[..].join("\n")`).
pub fn join_with_newlines(items: &Vec<String>) -> (result: String)
    ensures
        result@ == join_lines(Seq::new(items@.len(), |i: int| items@[i]@)),
{
    let ghost views = Seq::new(items@.len(), |i: int| items@[i]@);
    let mut out: Vec<char> = Vec::new();
    let mut i: usize = 0;
    assert(views.subrange(0, 0) =~= Seq::<Seq<char>>::empty());
    while i < items.len()
        invariant
            i <= items@.len(),
            views == Seq::new(items@.len(), |i: int| items@[i]@),
            out@ == join_lines(views.subrange(0, i as int)),
        decreases items.len() - i,
    {
        let ghost before = out@;
        if i > 0 {
            out.push('\n');
        }
        let chars = chars_of(items[i].as_str());
        let mut k: usize = 0;
        let ghost mid = out@;
        while k < chars.len()
            invariant
                k <= chars@.len(),
                out@ == mid + chars@.subrange(0, k as int),
            decreases chars.len() - k,
        {
            out.push(chars[k]);
            k += 1;
            assert(out@ =~= mid + chars@.subrange(0, k as int));
        }
        proof {
            let prefix = views.subrange(0, i + 1);
            assert(prefix.drop_last() =~= views.subrange(0, i as int));
            assert(prefix.last() == chars@);
            assert(chars@.subrange(0, chars@.len() as int) =~= chars@);
            if i == 0 {
                assert(out@ =~= chars@);
            } else {
                assert(out@ =~= before + seq!['\n'] + chars@);
            }
        }
        i += 1;
    }
    assert(views.subrange(0, items@.len() as int) =~= views);
    string_from_chars(&out)
}


/// Whether `c` separates path-list entries (`,`, `\n` or `\r`).
pub open spec fn is_entry_separator(c: char) -> bool {
    c == ',' || c == '\n' || c == '\r'
}

/// Whether `c` separates lines.
pub open spec fn is_newline(c: char) -> bool {
    c == '\n'
}

/// The separator predicate a split uses: newlines, and with `entries` also
/// commas and carriage returns.
pub open spec fn separator(entries: bool) -> spec_fn(char) -> bool {
    |c: char| if entries { is_entry_separator(c) } else { is_newline(c) }
}

/// The views of a vector of character vectors.
pub open spec fn char_views(items: Seq<Vec<char>>) -> Seq<Seq<char>> {
    Seq::new(items.len(), |i: int| items[i]@)
}

/// The views of a vector of strings.
pub open spec fn string_views(items: Seq<String>) -> Seq<Seq<char>> {
    Seq::new(items.len(), |i: int| items[i]@)
}

/// Splits `text` on newlines, or with `entries` also on commas and carriage returns.
pub fn split_text(text: &str, entries: bool) -> (pieces: Vec<Vec<char>>)
    ensures
        char_views(pieces@) == split_pieces(text@, separator(entries)),
{
    let chars = chars_of(text);
    let ghost sep = separator(entries);
    let mut done: Vec<Vec<char>> = Vec::new();
    let mut current: Vec<char> = Vec::new();
    let mut i: usize = 0;
    assert(chars@.subrange(0, 0) =~= Seq::<char>::empty());
    assert(char_views(done@).push(current@) =~= seq![Seq::<char>::empty()]);
    while i < chars.len()
        invariant
            i <= chars@.len(),
            chars@ == text@,
            sep == separator(entries),
            split_pieces(chars@.subrange(0, i as int), sep) == char_views(done@).push(current@),
        decreases chars.len() - i,
    {
        let c = chars[i];
        let ghost prefix = chars@.subrange(0, i + 1);
        assert(prefix.drop_last() =~= chars@.subrange(0, i as int));
        assert(prefix.last() == c);
        let is_sep = if entries {
            c == ',' || c == '\n' || c == '\r'
        } else {
            c == '\n'
        };
        assert(is_sep == sep(c));
        if is_sep {
            let finished = current;
            let ghost before = char_views(done@);
            done.push(finished);
            current = Vec::new();
            proof {
                assert(char_views(done@) =~= before.push(finished@));
                assert(split_pieces(prefix, sep) =~= char_views(done@).push(current@));
            }
        } else {
            let ghost before = current@;
            current.push(c);
            proof {
                let pieces = char_views(done@).push(before);
                assert(split_pieces(prefix, sep) =~= pieces.update(pieces.len() - 1, before.push(c)));
                assert(pieces.update(pieces.len() - 1, before.push(c)) =~= char_views(done@).push(current@));
            }
        }
        i += 1;
    }
    let ghost before = char_views(done@);
    done.push(current);
    assert(char_views(done@) =~= before.push(current@));
    assert(chars@.subrange(0, chars@.len() as int) =~= chars@);
    done
}

/// Lexicographic order of character sequences by code point.
pub open spec fn text_less(a: Seq<char>, b: Seq<char>) -> bool
    decreases a.len(),
{
    if a.len() == 0 {
        b.len() > 0
    } else if b.len() == 0 {
        false
    } else if a[0] != b[0] {
        (a[0] as u32) < (b[0] as u32)
    } else {
        text_less(a.drop_first(), b.drop_first())
    }
}

/// Strictly increasing, hence free of repeats.
pub open spec fn strictly_sorted(items: Seq<Seq<char>>) -> bool {
    forall|i: int, j: int| 0 <= i < j < items.len() ==> text_less(#[trigger] items[i], #[trigger] items[j])
}

proof fn lemma_text_less_irreflexive(a: Seq<char>)
    ensures
        !text_less(a, a),
    decreases a.len(),
{
    if a.len() > 0 {
        lemma_text_less_irreflexive(a.drop_first());
    }
}

proof fn lemma_text_less_transitive(a: Seq<char>, b: Seq<char>, c: Seq<char>)
    requires
        text_less(a, b),
        text_less(b, c),
    ensures
        text_less(a, c),
    decreases a.len(),
{
    if a.len() > 0 && b.len() > 0 && c.len() > 0 {
        if a[0] == b[0] && b[0] == c[0] {
            lemma_text_less_transitive(a.drop_first(), b.drop_first(), c.drop_first());
        }
    }
}

proof fn lemma_text_less_total(a: Seq<char>, b: Seq<char>)
    ensures
        a == b || text_less(a, b) || text_less(b, a),
    decreases a.len(),
{
    if a.len() > 0 && b.len() > 0 {
        if a[0] == b[0] {
            lemma_text_less_total(a.drop_first(), b.drop_first());
            if a.drop_first() == b.drop_first() {
                assert(a =~= seq![a[0]] + a.drop_first());
                assert(b =~= seq![b[0]] + b.drop_first());
            }
        } else {
            vstd::utf8::char_u32_cast(a[0], a[0] as u32);
            vstd::utf8::char_u32_cast(b[0], b[0] as u32);
        }
    } else if a.len() == 0 && b.len() == 0 {
        assert(a =~= b);
    }
}

proof fn lemma_text_less_asymmetric(a: Seq<char>, b: Seq<char>)
    requires
        text_less(a, b),
    ensures
        !text_less(b, a),
{
    if text_less(b, a) {
        lemma_text_less_transitive(a, b, a);
        lemma_text_less_irreflexive(a);
    }
}

/// Whether `a` orders before `b`.
pub fn chars_less(a: &Vec<char>, b: &Vec<char>) -> (less: bool)
    ensures
        less == text_less(a@, b@),
{
    let mut i: usize = 0;
    assert(a@.subrange(0, a@.len() as int) =~= a@);
    assert(b@.subrange(0, b@.len() as int) =~= b@);
    while i < a.len() && i < b.len() && a[i] == b[i]
        invariant
            i <= a@.len(),
            i <= b@.len(),
            forall|j: int| 0 <= j < i ==> a@[j] == b@[j],
            text_less(a@, b@) == text_less(a@.subrange(i as int, a@.len() as int), b@.subrange(i as int, b@.len() as int)),
        decreases a.len() - i,
    {
        proof {
            let sa = a@.subrange(i as int, a@.len() as int);
            let sb = b@.subrange(i as int, b@.len() as int);
            assert(sa.drop_first() =~= a@.subrange(i + 1, a@.len() as int));
            assert(sb.drop_first() =~= b@.subrange(i + 1, b@.len() as int));
        }
        i += 1;
    }
    if i == a.len() {
        i < b.len()
    } else if i == b.len() {
        false
    } else {
        (a[i] as u32) < (b[i] as u32)
    }
}

/// Inserts `item` into the strictly sorted `list`, unless it is already there.
pub fn insert_sorted(list: &mut Vec<Vec<char>>, item: Vec<char>)
    requires
        strictly_sorted(char_views(old(list)@)),
    ensures
        strictly_sorted(char_views(final(list)@)),
        forall|x: Seq<char>| #[trigger] char_views(final(list)@).contains(x) <==> (char_views(
            old(list)@,
        ).contains(x) || x == item@),
{
    let ghost old_views = char_views(list@);
    let mut pos: usize = 0;
    while pos < list.len() && chars_less(&list[pos], &item)
        invariant
            pos <= list@.len(),
            old_views == char_views(list@),
            strictly_sorted(old_views),
            forall|j: int| 0 <= j < pos ==> text_less(old_views[j], item@),
        decreases list.len() - pos,
    {
        pos += 1;
    }
    if pos < list.len() {
        proof {
            lemma_text_less_total(list@[pos as int]@, item@);
        }
        let same = !chars_less(&item, &list[pos]);
        if same {
            proof {
                assert(old_views[pos as int] == item@);
                assert forall|x: Seq<char>| #[trigger] char_views(list@).contains(x) <==> (old_views.contains(x) || x == item@) by {
                    if x == item@ {
                        assert(old_views[pos as int] == x);
                    }
                }
            }
            return;
        }
    }
    proof {
        assert forall|j: int| pos <= j < old_views.len() implies text_less(item@, #[trigger] old_views[j]) by {
            if j > pos {
                lemma_text_less_total(old_views[pos as int], item@);
                assert(text_less(old_views[pos as int], old_views[j]));
                if !text_less(item@, old_views[pos as int]) {
                    assert(old_views[pos as int] == item@ || text_less(old_views[pos as int], item@));
                }
                lemma_text_less_transitive(item@, old_views[pos as int], old_views[j]);
            }
            if j == pos {
                lemma_text_less_total(old_views[pos as int], item@);
            }
        }
    }
    let ghost item_view = item@;
    list.insert(pos, item);
    proof {
        let new_views = char_views(list@);
        assert(new_views =~= old_views.insert(pos as int, item_view));
        assert forall|a: int, b: int| 0 <= a < b < new_views.len() implies text_less(#[trigger] new_views[a], #[trigger] new_views[b]) by {
            if b < pos {
            } else if a < pos && b == pos {
            } else if a < pos && b > pos {
                assert(new_views[b] == old_views[b - 1]);
            } else if a == pos {
                assert(new_views[b] == old_views[b - 1]);
            } else {
                assert(new_views[a] == old_views[a - 1]);
                assert(new_views[b] == old_views[b - 1]);
            }
        }
        assert forall|x: Seq<char>| #[trigger] new_views.contains(x) <==> (old_views.contains(x) || x == item_view) by {
            if new_views.contains(x) {
                let k = choose|k: int| 0 <= k < new_views.len() && new_views[k] == x;
                if k < pos {
                    assert(old_views[k] == x);
                } else if k > pos {
                    assert(old_views[k - 1] == x);
                }
            }
            if old_views.contains(x) {
                let k = choose|k: int| 0 <= k < old_views.len() && old_views[k] == x;
                if k < pos {
                    assert(new_views[k] == x);
                } else {
                    assert(new_views[k + 1] == x);
                }
            }
            if x == item_view {
                assert(new_views[pos as int] == x);
            }
        }
    }
}

/// Two strictly sorted sequences with the same elements are equal.
pub proof fn lemma_sorted_same_elements(a: Seq<Seq<char>>, b: Seq<Seq<char>>)
    requires
        strictly_sorted(a),
        strictly_sorted(b),
        forall|x: Seq<char>|
            #![trigger a.contains(x)]
            #![trigger b.contains(x)]
            a.contains(x) <==> b.contains(x),
    ensures
        a == b,
    decreases a.len() + b.len(),
{
    if a.len() > 0 && b.len() > 0 {
        assert(a.contains(a[0]) && b.contains(a[0]));
        assert(b.contains(b[0]) && a.contains(b[0]));
        let ia = choose|k: int| 0 <= k < b.len() && b[k] == a[0];
        let ib = choose|k: int| 0 <= k < a.len() && a[k] == b[0];
        if a[0] != b[0] {
            assert(ia != 0 && ib != 0);
            assert(text_less(b[0], b[ia]));
            assert(text_less(a[0], a[ib]));
            lemma_text_less_asymmetric(a[0], b[0]);
        }
        let ta = a.drop_first();
        let tb = b.drop_first();
        assert forall|x: Seq<char>| ta.contains(x) implies tb.contains(x) by {
            let k = choose|k: int| 0 <= k < ta.len() && ta[k] == x;
            assert(a[k + 1] == x);
            assert(text_less(a[0], x));
            lemma_text_less_irreflexive(x);
            assert(a.contains(x));
            assert(b.contains(x));
            let m = choose|m: int| 0 <= m < b.len() && b[m] == x;
            assert(m != 0);
            assert(tb[m - 1] == x);
        }
        assert forall|x: Seq<char>| tb.contains(x) implies ta.contains(x) by {
            let k = choose|k: int| 0 <= k < tb.len() && tb[k] == x;
            assert(b[k + 1] == x);
            assert(text_less(b[0], x));
            lemma_text_less_irreflexive(x);
            assert(b.contains(x));
            assert(a.contains(x));
            let m = choose|m: int| 0 <= m < a.len() && a[m] == x;
            assert(m != 0);
            assert(ta[m - 1] == x);
        }
        assert forall|i: int, j: int| 0 <= i < j < ta.len() implies text_less(#[trigger] ta[i], #[trigger] ta[j]) by {
            assert(ta[i] == a[i + 1] && ta[j] == a[j + 1]);
        }
        assert forall|i: int, j: int| 0 <= i < j < tb.len() implies text_less(#[trigger] tb[i], #[trigger] tb[j]) by {
            assert(tb[i] == b[i + 1] && tb[j] == b[j + 1]);
        }
        lemma_sorted_same_elements(ta, tb);
        assert(a =~= seq![a[0]] + ta);
        assert(b =~= seq![b[0]] + tb);
    } else if a.len() > 0 {
        assert(a.contains(a[0]));
        assert(b.contains(a[0]));
    } else if b.len() > 0 {
        assert(b.contains(b[0]));
        assert(a.contains(b[0]));
    } else {
        assert(a =~= b);
    }
}

/// Text without separator characters splits into itself alone.
pub proof fn lemma_split_without_separator(s: Seq<char>, sep: spec_fn(char) -> bool)
    requires
        forall|i: int| 0 <= i < s.len() ==> !sep(#[trigger] s[i]),
    ensures
        split_pieces(s, sep) == seq![s],
    decreases s.len(),
{
    if s.len() > 0 {
        lemma_split_without_separator(s.drop_last(), sep);
        assert(s.drop_last().push(s.last()) =~= s);
    } else {
        assert(s =~= Seq::<char>::empty());
    }
}

/// Splitting `a`, a separator, then separator-free `b` gives the pieces of
/// `a` followed by `b`.
pub proof fn lemma_split_after_separator(a: Seq<char>, c: char, b: Seq<char>, sep: spec_fn(char) -> bool)
    requires
        sep(c),
        forall|i: int| 0 <= i < b.len() ==> !sep(#[trigger] b[i]),
    ensures
        split_pieces(a + seq![c] + b, sep) == split_pieces(a, sep).push(b),
    decreases b.len(),
{
    let s = a + seq![c] + b;
    if b.len() == 0 {
        assert(s.drop_last() =~= a);
        assert(b =~= Seq::<char>::empty());
    } else {
        let shorter = b.drop_last();
        lemma_split_after_separator(a, c, shorter, sep);
        assert(s.drop_last() =~= a + seq![c] + shorter);
        assert(s.last() == b.last());
        assert(shorter.push(b.last()) =~= b);
        let pieces = split_pieces(a, sep).push(shorter);
        assert(pieces.update(pieces.len() - 1, pieces.last().push(s.last())) =~= split_pieces(a, sep).push(b));
    }
}

/// Lines that hold no separator, joined with `\n` (a separator), split back
/// into themselves.
pub proof fn lemma_split_join(items: Seq<Seq<char>>, sep: spec_fn(char) -> bool)
    requires
        items.len() >= 1,
        sep('\n'),
        forall|i: int, j: int| 0 <= i < items.len() && 0 <= j < items[i].len() ==> !sep(#[trigger] items[i][j]),
    ensures
        split_pieces(join_lines(items), sep) == items,
    decreases items.len(),
{
    if items.len() == 1 {
        let only = items[0];
        assert forall|j: int| 0 <= j < only.len() implies !sep(#[trigger] only[j]) by {
            assert(items[0][j] == only[j]);
        }
        lemma_split_without_separator(only, sep);
        assert(items =~= seq![only]);
    } else {
        let front = items.drop_last();
        let last = items.last();
        assert forall|i: int, j: int| 0 <= i < front.len() && 0 <= j < front[i].len() implies !sep(#[trigger] front[i][j]) by {
            assert(front[i] == items[i]);
        }
        lemma_split_join(front, sep);
        assert forall|j: int| 0 <= j < last.len() implies !sep(#[trigger] last[j]) by {
            assert(items[items.len() - 1][j] == last[j]);
        }
        lemma_split_after_separator(join_lines(front), '\n', last, sep);
        assert(front.push(last) =~= items);
    }
}

/// A list without empty entries keeps them all.
pub proof fn lemma_non_empty_keeps_all(items: Seq<Seq<char>>)
    requires
        forall|i: int| 0 <= i < items.len() ==> #[trigger] items[i].len() > 0,
    ensures
        non_empty(items) == items,
    decreases items.len(),
{
    if items.len() > 0 {
        let front = items.drop_last();
        assert forall|i: int| 0 <= i < front.len() implies #[trigger] front[i].len() > 0 by {
            assert(front[i] == items[i]);
        }
        lemma_non_empty_keeps_all(front);
        assert(items.last() == items[items.len() - 1]);
        assert(front.push(items.last()) =~= items);
    }
}

/// Text that neither starts nor ends with whitespace is its own trim.
pub proof fn lemma_trim_of_trimmed(s: Seq<char>)
    requires
        s.len() > 0,
        !is_whitespace(s[0]),
        !is_whitespace(s.last()),
    ensures
        trim(s) == s,
{
}

/// Whether two character vectors are equal.
pub fn chars_equal(a: &Vec<char>, b: &Vec<char>) -> (equal: bool)
    ensures
        equal == (a@ == b@),
{
    if a.len() != b.len() {
        return false;
    }
    let mut i: usize = 0;
    while i < a.len()
        invariant
            i <= a@.len(),
            a@.len() == b@.len(),
            forall|j: int| 0 <= j < i ==> a@[j] == b@[j],
        decreases a.len() - i,
    {
        if a[i] != b[i] {
            return false;
        }
        i += 1;
    }
    assert(a@ =~= b@);
    true
}

} // verus!
