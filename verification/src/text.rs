//! Building and inspecting text.

use vstd::prelude::*;
use vstd::utf8::*;

verus! {

broadcast use vstd::string::group_string_axioms;

/// Specifies `String::push`, which appends one character.
pub assume_specification[ String::push ](text: &mut String, c: char)
    ensures
        final(text)@ == old(text)@.push(c),
;

/// The texts that a sequence of strings holds.
pub open spec fn texts(strings: Seq<String>) -> Seq<Seq<char>> {
    strings.map_values(|s: String| s@)
}

/// The parts one after the other, with `separator` between neighbours.
pub open spec fn joined(parts: Seq<Seq<char>>, separator: Seq<char>) -> Seq<char>
    decreases parts.len(),
{
    if parts.len() == 0 {
        Seq::empty()
    } else if parts.len() == 1 {
        parts[0]
    } else {
        joined(parts.drop_last(), separator) + (separator + parts.last())
    }
}

/// Whether Unicode counts `c` as white space.
pub open spec fn white_space(c: char) -> bool {
    ||| '\u{9}' <= c <= '\u{d}'
    ||| c == ' '
    ||| c == '\u{85}'
    ||| c == '\u{a0}'
    ||| c == '\u{1680}'
    ||| '\u{2000}' <= c <= '\u{200a}'
    ||| c == '\u{2028}'
    ||| c == '\u{2029}'
    ||| c == '\u{202f}'
    ||| c == '\u{205f}'
    ||| c == '\u{3000}'
}

/// Whether some character of `text` is white space.
pub open spec fn has_white_space(text: Seq<char>) -> bool {
    exists|i: int| 0 <= i < text.len() && white_space(#[trigger] text[i])
}

/// Whether trimming `text` leaves nothing.
pub open spec fn blank(text: Seq<char>) -> bool {
    forall|i: int| 0 <= i < text.len() ==> white_space(#[trigger] text[i])
}

/// The order of texts by their characters, the shorter of two first where one begins the other.
pub open spec fn text_le(a: Seq<char>, b: Seq<char>) -> bool
    decreases a.len(),
{
    if a.len() == 0 {
        true
    } else if b.len() == 0 {
        false
    } else if a[0] == b[0] {
        text_le(a.skip(1), b.skip(1))
    } else {
        a[0] < b[0]
    }
}

/// Copies texts.
pub fn copy_texts(strings: &Vec<String>) -> (r: Vec<String>)
    ensures
        r@ == strings@,
{
    let mut out: Vec<String> = Vec::new();
    for i in 0..strings.len()
        invariant
            out@ == strings@.take(i as int),
    {
        out.push(strings[i].clone());
        assert(out@ =~= strings@.take(i + 1));
    }
    assert(strings@.take(strings@.len() as int) =~= strings@);
    out
}

/// Joins `parts` with `separator` between neighbours.
pub fn join(parts: &Vec<String>, separator: &str) -> (r: String)
    ensures
        r@ == joined(texts(parts@), separator@),
{
    let mut out = String::new();
    let mut i: usize = 0;
    while i < parts.len()
        invariant
            i <= parts.len(),
            out@ == joined(texts(parts@).take(i as int), separator@),
        decreases parts.len() - i,
    {
        proof {
            let all = texts(parts@);
            assert(all.take(i + 1).drop_last() =~= all.take(i as int));
            assert(all.take(i + 1).last() == parts@[i as int]@);
        }
        if i > 0 {
            out.append(separator);
        }
        out.append(parts[i].as_str());
        i = i + 1;
        assert(out@ =~= joined(texts(parts@).take(i as int), separator@));
    }
    assert(texts(parts@).take(parts.len() as int) =~= texts(parts@));
    out
}

/// Whether Unicode counts `c` as white space.
pub fn is_white_space(c: char) -> (r: bool)
    ensures
        r == white_space(c),
{
    ('\u{9}' <= c && c <= '\u{d}') || c == ' ' || c == '\u{85}' || c == '\u{a0}' || c == '\u{1680}'
        || ('\u{2000}' <= c && c <= '\u{200a}') || c == '\u{2028}' || c == '\u{2029}' || c
        == '\u{202f}' || c == '\u{205f}' || c == '\u{3000}'
}

/// The characters of `text`, one by one.
pub fn chars_of(text: &str) -> (r: Vec<char>)
    ensures
        r@ == text@,
{
    let mut out: Vec<char> = Vec::new();
    for c in it: text.chars()
        invariant
            it.seq() == text@,
            out@ == text@.take(it.index() as int),
    {
        out.push(c);
        assert(out@ =~= text@.take(it.index() + 1));
    }
    assert(text@.take(text@.len() as int) =~= text@);
    out
}

/// Whether some character of `text` is white space.
pub fn contains_white_space(text: &str) -> (r: bool)
    ensures
        r == has_white_space(text@),
{
    let chars = chars_of(text);
    let mut i: usize = 0;
    while i < chars.len()
        invariant
            chars@ == text@,
            i <= chars.len(),
            forall|j: int| 0 <= j < i ==> !white_space(#[trigger] text@[j]),
        decreases chars.len() - i,
    {
        if is_white_space(chars[i]) {
            return true;
        }
        i = i + 1;
    }
    false
}

/// Whether trimming `text` leaves nothing.
pub fn is_blank(text: &str) -> (r: bool)
    ensures
        r == blank(text@),
{
    let chars = chars_of(text);
    let mut i: usize = 0;
    while i < chars.len()
        invariant
            chars@ == text@,
            i <= chars.len(),
            forall|j: int| 0 <= j < i ==> white_space(#[trigger] text@[j]),
        decreases chars.len() - i,
    {
        if !is_white_space(chars[i]) {
            return false;
        }
        i = i + 1;
    }
    true
}

/// Whether the two texts are the same.
pub fn same_text(a: &str, b: &str) -> (r: bool)
    ensures
        r == (a@ == b@),
{
    let x = a.as_bytes();
    let y = b.as_bytes();
    proof {
        encode_utf8_decode_utf8(a@);
        encode_utf8_decode_utf8(b@);
    }
    if x.len() != y.len() {
        return false;
    }
    let mut i: usize = 0;
    while i < x.len()
        invariant
            x@ == encode_utf8(a@),
            y@ == encode_utf8(b@),
            x@.len() == y@.len(),
            i <= x@.len(),
            forall|j: int| 0 <= j < i ==> x@[j] == y@[j],
        decreases x@.len() - i,
    {
        if x[i] != y[i] {
            return false;
        }
        i = i + 1;
    }
    assert(x@ =~= y@);
    true
}

/// Whether `a` comes before `b`, or is the same, in the order of texts.
pub fn is_text_le(a: &str, b: &str) -> (r: bool)
    ensures
        r == text_le(a@, b@),
{
    let x = chars_of(a);
    let y = chars_of(b);
    let mut i: usize = 0;
    assert(a@.skip(0) =~= a@);
    assert(b@.skip(0) =~= b@);
    while i < x.len()
        invariant
            x@ == a@,
            y@ == b@,
            i <= x.len(),
            i <= y.len(),
            text_le(a@, b@) == text_le(a@.skip(i as int), b@.skip(i as int)),
        decreases x.len() - i,
    {
        if i == y.len() {
            return false;
        }
        let c = x[i];
        let d = y[i];
        proof {
            assert(a@.skip(i as int)[0] == c);
            assert(b@.skip(i as int)[0] == d);
            assert(a@.skip(i as int).skip(1) =~= a@.skip(i + 1));
            assert(b@.skip(i as int).skip(1) =~= b@.skip(i + 1));
        }
        if c != d {
            return c < d;
        }
        i = i + 1;
    }
    true
}

/// Every text is in order with itself.
pub proof fn text_le_is_reflexive(a: Seq<char>)
    ensures
        text_le(a, a),
    decreases a.len(),
{
    if a.len() > 0 {
        text_le_is_reflexive(a.skip(1));
    }
}

/// Of two texts one comes first.
pub proof fn text_le_is_total(a: Seq<char>, b: Seq<char>)
    ensures
        text_le(a, b) || text_le(b, a),
    decreases a.len(),
{
    if a.len() > 0 && b.len() > 0 && a[0] == b[0] {
        text_le_is_total(a.skip(1), b.skip(1));
    }
}

/// Two texts that each come before the other are the same.
pub proof fn text_le_is_antisymmetric(a: Seq<char>, b: Seq<char>)
    requires
        text_le(a, b),
        text_le(b, a),
    ensures
        a == b,
    decreases a.len(),
{
    if a.len() > 0 && b.len() > 0 {
        text_le_is_antisymmetric(a.skip(1), b.skip(1));
        assert(a =~= seq![a[0]] + a.skip(1));
        assert(b =~= seq![b[0]] + b.skip(1));
    } else {
        assert(a =~= b);
    }
}

/// What comes before an earlier text comes before a later one.
pub proof fn text_le_is_transitive(a: Seq<char>, b: Seq<char>, c: Seq<char>)
    requires
        text_le(a, b),
        text_le(b, c),
    ensures
        text_le(a, c),
    decreases a.len(),
{
    if a.len() > 0 && a[0] == b[0] && b[0] == c[0] {
        text_le_is_transitive(a.skip(1), b.skip(1), c.skip(1));
    }
}

/// Whether `names` lists the members of `members`, each once, in order.
pub open spec fn is_listing(names: Seq<Seq<char>>, members: Set<Seq<char>>) -> bool {
    &&& forall|i: int, j: int|
        0 <= i < j < names.len() ==> text_le(#[trigger] names[i], #[trigger] names[j]) && names[i]
            != names[j]
    &&& forall|name: Seq<char>| #[trigger] members.contains(name) <==> names.contains(name)
}

/// A set of texts has one listing.
pub proof fn a_set_has_one_listing(a: Seq<Seq<char>>, b: Seq<Seq<char>>, members: Set<Seq<char>>)
    requires
        is_listing(a, members),
        is_listing(b, members),
    ensures
        a == b,
    decreases a.len(),
{
    if a.len() == 0 {
        if b.len() > 0 {
            assert(b.contains(b[0]));
            assert(members.contains(b[0]));
        }
        assert(a =~= b);
    } else {
        assert(a.contains(a[0]));
        assert(members.contains(a[0]));
        assert(b.contains(a[0]));
        let k = choose|k: int| 0 <= k < b.len() && b[k] == a[0];
        assert(b.contains(b[0]));
        assert(members.contains(b[0]));
        assert(a.contains(b[0]));
        let m = choose|m: int| 0 <= m < a.len() && a[m] == b[0];
        text_le_is_reflexive(a[0]);
        text_le_is_antisymmetric(a[0], b[0]);
        let rest = members.remove(a[0]);
        lemma_listing_tail(a, members);
        lemma_listing_tail(b, members);
        a_set_has_one_listing(a.skip(1), b.skip(1), rest);
        assert(a =~= seq![a[0]] + a.skip(1));
        assert(b =~= seq![b[0]] + b.skip(1));
    }
}

/// A listing without its first name lists the set without it.
proof fn lemma_listing_tail(names: Seq<Seq<char>>, members: Set<Seq<char>>)
    requires
        is_listing(names, members),
        names.len() > 0,
    ensures
        is_listing(names.skip(1), members.remove(names[0])),
{
    let tail = names.skip(1);
    assert forall|i: int, j: int| 0 <= i < j < tail.len() implies text_le(
        #[trigger] tail[i],
        #[trigger] tail[j],
    ) && tail[i] != tail[j] by {
        assert(text_le(names[i + 1], names[j + 1]));
    }
    assert forall|name: Seq<char>|
        #[trigger] members.remove(names[0]).contains(name) <==> tail.contains(name) by {
        if members.remove(names[0]).contains(name) {
            assert(names.contains(name));
            let k = choose|k: int| 0 <= k < names.len() && names[k] == name;
            assert(tail[k - 1] == name);
        }
        if tail.contains(name) {
            let k = choose|k: int| 0 <= k < tail.len() && tail[k] == name;
            assert(names[k + 1] == name);
            assert(names.contains(name));
            assert(names[0] != names[k + 1]);
        }
    }
}

/// Puts `name` where it belongs in a sorted list that does not hold it.
pub(crate) fn insert_in_order(
    names: &mut Vec<String>,
    name: String,
    Ghost(members): Ghost<Set<Seq<char>>>,
)
    requires
        is_listing(texts(old(names)@), members),
        !members.contains(name@),
    ensures
        is_listing(texts(final(names)@), members.insert(name@)),
{
    let ghost before = texts(names@);
    let mut p: usize = 0;
    while p < names.len() && !is_text_le(name.as_str(), names[p].as_str())
        invariant
            p <= names@.len(),
            before == texts(names@),
            forall|j: int| 0 <= j < p ==> !text_le(name@, #[trigger] before[j]),
        decreases names@.len() - p,
    {
        p = p + 1;
    }
    let ghost new = name@;
    names.insert(p, name);
    proof {
        let after = texts(names@);
        assert(after =~= before.insert(p as int, new));
        assert forall|j: int| 0 <= j < before.len() implies #[trigger] before[j] != new by {
            assert(before.contains(before[j]));
        }
        assert forall|i: int, j: int| 0 <= i < j < after.len() implies text_le(
            #[trigger] after[i],
            #[trigger] after[j],
        ) && after[i] != after[j] by {
            let x = if i < p { i } else { i - 1 };
            let y = if j < p { j } else { j - 1 };
            if i == p {
                text_le_is_reflexive(before[p as int]);
                if y > p {
                    text_le_is_transitive(new, before[p as int], before[y]);
                }
            } else if j == p {
                text_le_is_total(new, before[x]);
            } else {
                assert(text_le(before[x], before[y]));
            }
        }
        assert forall|n: Seq<char>|
            #[trigger] members.insert(new).contains(n) <==> after.contains(n) by {
            if members.contains(n) {
                assert(before.contains(n));
                let k = choose|k: int| 0 <= k < before.len() && before[k] == n;
                assert(after[if k < p { k } else { k + 1 }] == n);
            }
            assert(after[p as int] == new);
            if after.contains(n) && n != new {
                let k = choose|k: int| 0 <= k < after.len() && after[k] == n;
                assert(before[if k < p { k } else { k - 1 }] == n);
                assert(before.contains(n));
            }
        }
    }
}

/// The text without the white space at its beginning.
pub open spec fn trim_start(text: Seq<char>) -> Seq<char>
    decreases text.len(),
{
    if text.len() > 0 && white_space(text[0]) {
        trim_start(text.skip(1))
    } else {
        text
    }
}

/// The text without the white space at its end.
pub open spec fn trim_end(text: Seq<char>) -> Seq<char>
    decreases text.len(),
{
    if text.len() > 0 && white_space(text.last()) {
        trim_end(text.drop_last())
    } else {
        text
    }
}

/// The text without the white space at its beginning and its end.
pub open spec fn trimmed(text: Seq<char>) -> Seq<char> {
    trim_end(trim_start(text))
}

/// The text without the white space at its beginning and its end.
pub fn trim(text: &str) -> (r: String)
    ensures
        r@ == trimmed(text@),
{
    let chars = chars_of(text);
    let mut from: usize = 0;
    assert(text@.skip(0) =~= text@);
    while from < chars.len() && is_white_space(chars[from])
        invariant
            chars@ == text@,
            from <= chars.len(),
            trim_start(text@) == trim_start(text@.skip(from as int)),
        decreases chars.len() - from,
    {
        assert(text@.skip(from as int).skip(1) =~= text@.skip(from + 1));
        from = from + 1;
    }
    let ghost start = text@.skip(from as int);
    assert(trim_start(text@) == start);
    let mut to: usize = chars.len();
    assert(text@.subrange(from as int, to as int) =~= start);
    while to > from && is_white_space(chars[to - 1])
        invariant
            chars@ == text@,
            from <= to <= chars.len(),
            trim_end(start) == trim_end(text@.subrange(from as int, to as int)),
        decreases to,
    {
        assert(text@.subrange(from as int, to as int).drop_last() =~= text@.subrange(
            from as int,
            to - 1,
        ));
        to = to - 1;
    }
    let mut out = String::new();
    let mut i: usize = from;
    while i < to
        invariant
            chars@ == text@,
            from <= i <= to <= chars.len(),
            out@ == text@.subrange(from as int, i as int),
        decreases to - i,
    {
        out.push(chars[i]);
        i = i + 1;
        assert(out@ =~= text@.subrange(from as int, i as int));
    }
    out
}

/// Trimming leaves nothing of a text exactly where all of it is white space.
pub proof fn only_blank_texts_trim_to_nothing(text: Seq<char>)
    ensures
        trimmed(text).len() == 0 <==> blank(text),
{
    lemma_trim_start(text);
    lemma_trim_end(trim_start(text));
    let start = trim_start(text);
    if start.len() > 0 {
        assert(!white_space(start[0]));
    }
}

/// What is trimmed off the beginning is white space.
proof fn lemma_trim_start(text: Seq<char>)
    ensures
        trim_start(text).len() > 0 ==> !white_space(trim_start(text)[0]),
        trim_start(text).len() == 0 <==> blank(text),
    decreases text.len(),
{
    if text.len() > 0 && white_space(text[0]) {
        lemma_trim_start(text.skip(1));
        let rest = text.skip(1);
        if blank(rest) {
            assert forall|i: int| 0 <= i < text.len() implies white_space(#[trigger] text[i]) by {
                if i > 0 {
                    assert(white_space(rest[i - 1]));
                }
            }
        }
        if blank(text) {
            assert forall|i: int| 0 <= i < rest.len() implies white_space(#[trigger] rest[i]) by {
                assert(white_space(text[i + 1]));
            }
        }
    }
}

/// A text that begins with a character that is not white space keeps it.
proof fn lemma_trim_end(text: Seq<char>)
    requires
        text.len() > 0 ==> !white_space(text[0]),
    ensures
        text.len() > 0 ==> trim_end(text).len() > 0,
    decreases text.len(),
{
    if text.len() > 0 && white_space(text.last()) {
        lemma_trim_end(text.drop_last());
    }
}

/// Among the ASCII characters, white space are the space and the controls from the tab to the
/// carriage return; no character that is seen is white space.
pub proof fn ascii_white_space(c: char)
    requires
        c <= '\u{7f}',
    ensures
        white_space(c) <==> c == ' ' || c == '\t' || c == '\n' || c == '\u{b}' || c == '\u{c}' || c
            == '\r',
        '!' <= c <= '~' ==> !white_space(c),
{
}

/// Beyond ASCII, white space are the next-line control, the spaces of Unicode and its two
/// separators.
pub proof fn other_white_space(c: char)
    requires
        c > '\u{7f}',
    ensures
        white_space(c) <==> c == '\u{85}' || c == '\u{a0}' || c == '\u{1680}' || (c >= '\u{2000}'
            && c < '\u{200b}') || c == '\u{2028}' || c == '\u{2029}' || c == '\u{202f}' || c
            == '\u{205f}' || c == '\u{3000}',
{
}

/// A text is blank, or holds white space, by its characters one by one.
pub proof fn white_space_is_found_by_character(a: Seq<char>, b: Seq<char>, c: char)
    ensures
        blank(a + b) <==> blank(a) && blank(b),
        has_white_space(a + b) <==> has_white_space(a) || has_white_space(b),
        blank(seq![c]) <==> white_space(c),
        has_white_space(seq![c]) <==> white_space(c),
        blank(Seq::empty()),
        !has_white_space(Seq::empty()),
{
    let all = a + b;
    assert forall|i: int| 0 <= i < a.len() implies all[i] == #[trigger] a[i] by {}
    assert forall|i: int| 0 <= i < b.len() implies all[a.len() + i] == #[trigger] b[i] by {}
    if blank(all) {
        assert forall|i: int| 0 <= i < a.len() implies white_space(#[trigger] a[i]) by {
            assert(white_space(all[i]));
        }
        assert forall|i: int| 0 <= i < b.len() implies white_space(#[trigger] b[i]) by {
            assert(white_space(all[a.len() + i]));
        }
    }
    if blank(a) && blank(b) {
        assert forall|i: int| 0 <= i < all.len() implies white_space(#[trigger] all[i]) by {
            if i < a.len() {
                assert(white_space(a[i]));
            } else {
                assert(white_space(b[i - a.len()]));
            }
        }
    }
    if has_white_space(all) {
        let i = choose|i: int| 0 <= i < all.len() && white_space(#[trigger] all[i]);
        if i < a.len() {
            assert(white_space(a[i]));
        } else {
            assert(white_space(b[i - a.len()]));
        }
    }
    if has_white_space(a) {
        let i = choose|i: int| 0 <= i < a.len() && white_space(#[trigger] a[i]);
        assert(white_space(all[i]));
    }
    if has_white_space(b) {
        let i = choose|i: int| 0 <= i < b.len() && white_space(#[trigger] b[i]);
        assert(white_space(all[a.len() + i]));
    }
    assert(seq![c][0] == c);
    if white_space(c) {
        assert(white_space(seq![c][0]));
    }
}

/// White space in front is trimmed off.
proof fn lemma_trim_start_of(a: Seq<char>, b: Seq<char>)
    requires
        blank(a),
    ensures
        trim_start(a + b) == trim_start(b),
    decreases a.len(),
{
    if a.len() == 0 {
        assert(a + b =~= b);
    } else {
        assert((a + b)[0] == a[0]);
        assert(white_space(a[0]));
        let rest = a.skip(1);
        assert forall|i: int| 0 <= i < rest.len() implies white_space(#[trigger] rest[i]) by {
            assert(white_space(a[i + 1]));
        }
        lemma_trim_start_of(rest, b);
        assert((a + b).skip(1) =~= rest + b);
    }
}

/// White space behind is trimmed off.
proof fn lemma_trim_end_of(a: Seq<char>, b: Seq<char>)
    requires
        blank(b),
    ensures
        trim_end(a + b) == trim_end(a),
    decreases b.len(),
{
    if b.len() == 0 {
        assert(a + b =~= a);
    } else {
        assert((a + b).last() == b[b.len() - 1]);
        assert(white_space(b[b.len() - 1]));
        let rest = b.drop_last();
        assert forall|i: int| 0 <= i < rest.len() implies white_space(#[trigger] rest[i]) by {
            assert(white_space(b[i]));
        }
        lemma_trim_end_of(a, rest);
        assert((a + b).drop_last() =~= a + rest);
    }
}

/// Trimming takes the white space off both ends and leaves what is between as it is: a text that
/// neither begins nor ends with white space is what is left of it with any white space around.
pub proof fn trimming_leaves_what_is_between(
    before: Seq<char>,
    text: Seq<char>,
    after: Seq<char>,
)
    requires
        blank(before),
        blank(after),
        text.len() > 0 ==> !white_space(text[0]) && !white_space(text[text.len() - 1]),
    ensures
        trimmed(before + text + after) == text,
{
    assert(before + text + after =~= before + (text + after));
    lemma_trim_start_of(before, text + after);
    if text.len() > 0 {
        assert((text + after)[0] == text[0]);
        lemma_trim_end_of(text, after);
    } else {
        assert(text + after =~= after);
        lemma_trim_start_of(after, Seq::empty());
        assert(after + Seq::<char>::empty() =~= after);
        assert(trimmed(before + text + after) =~= text);
    }
}

/// Joining goes on behind a separator, and a single part stands as it is.
pub proof fn joining_goes_on_behind_a_separator(
    parts: Seq<Seq<char>>,
    part: Seq<char>,
    separator: Seq<char>,
)
    ensures
        joined(Seq::empty(), separator) == Seq::<char>::empty(),
        joined(seq![part], separator) == part,
        parts.len() > 0 ==> joined(parts.push(part), separator) == joined(parts, separator)
            + separator + part,
{
    if parts.len() > 0 {
        assert(parts.push(part).drop_last() =~= parts);
        assert(joined(parts, separator) + (separator + part) =~= joined(parts, separator)
            + separator + part);
    }
}

/// The first character in which two texts differ decides their order, and a text comes before every
/// longer one that begins with it.
pub proof fn the_first_difference_decides(
    same: Seq<char>,
    a: char,
    b: char,
    x: Seq<char>,
    y: Seq<char>,
)
    ensures
        a != b ==> text_le(same + seq![a] + x, same + seq![b] + y) == (a < b),
        text_le(same, same + x),
        x.len() > 0 ==> !text_le(same + x, same),
    decreases same.len(),
{
    let p = same + seq![a] + x;
    let q = same + seq![b] + y;
    if same.len() == 0 {
        assert(p[0] == a);
        assert(q[0] == b);
    } else {
        let rest = same.skip(1);
        the_first_difference_decides(rest, a, b, x, y);
        assert(p[0] == same[0]);
        assert(q[0] == same[0]);
        assert(p.skip(1) =~= rest + seq![a] + x);
        assert(q.skip(1) =~= rest + seq![b] + y);
        assert((same + x)[0] == same[0]);
        assert((same + x).skip(1) =~= rest + x);
    }
}

/// What [`trim`] gives stands in the text with nothing but white space around it, and neither begins
/// nor ends with white space.
pub proof fn trim_takes_off_only_white_space(text: &str, r: String)
    requires
        call_ensures(trim, (text,), r),
    ensures
        exists|before: Seq<char>, after: Seq<char>|
            #[trigger] (before + r@ + after) == text@ && blank(before) && blank(after),
        r@.len() > 0 ==> !white_space(r@[0]) && !white_space(r@[r@.len() - 1]),
{
    let start = trim_start(text@);
    lemma_trim_start(text@);
    let before = lemma_start_is_trimmed(text@);
    let after = lemma_end_is_trimmed(start);
    assert(before + r@ + after =~= text@);
    if r@.len() > 0 {
        assert(r@[0] == start[0]);
    }
}

/// What is trimmed off the beginning.
proof fn lemma_start_is_trimmed(text: Seq<char>) -> (before: Seq<char>)
    ensures
        before + trim_start(text) == text,
        blank(before),
    decreases text.len(),
{
    if text.len() > 0 && white_space(text[0]) {
        let rest = lemma_start_is_trimmed(text.skip(1));
        let before = seq![text[0]] + rest;
        assert(before + trim_start(text) =~= seq![text[0]] + text.skip(1));
        assert(seq![text[0]] + text.skip(1) =~= text);
        assert forall|i: int| 0 <= i < before.len() implies white_space(#[trigger] before[i]) by {
            if i > 0 {
                assert(white_space(rest[i - 1]));
            }
        }
        before
    } else {
        assert(Seq::<char>::empty() + text =~= text);
        Seq::empty()
    }
}

/// What is trimmed off the end.
proof fn lemma_end_is_trimmed(text: Seq<char>) -> (after: Seq<char>)
    ensures
        trim_end(text) + after == text,
        blank(after),
        trim_end(text).len() > 0 ==> !white_space(trim_end(text)[trim_end(text).len() - 1])
            && trim_end(text)[0] == text[0],
    decreases text.len(),
{
    if text.len() > 0 && white_space(text.last()) {
        let rest = lemma_end_is_trimmed(text.drop_last());
        let after = rest.push(text.last());
        assert(trim_end(text) + after =~= text.drop_last().push(text.last()));
        assert(text.drop_last().push(text.last()) =~= text);
        assert forall|i: int| 0 <= i < after.len() implies white_space(#[trigger] after[i]) by {
            if i < rest.len() {
                assert(white_space(rest[i]));
            }
        }
        after
    } else {
        assert(text + Seq::<char>::empty() =~= text);
        Seq::empty()
    }
}

/// A listing goes up: of two names the one that stands earlier comes first in the order of texts. It
/// holds every member and nothing else.
pub proof fn a_listing_goes_up(names: Seq<Seq<char>>, members: Set<Seq<char>>, i: int, j: int)
    requires
        is_listing(names, members),
        0 <= i < j < names.len(),
    ensures
        text_le(names[i], names[j]),
        !text_le(names[j], names[i]),
        members.contains(names[i]),
        forall|name: Seq<char>|
            members.contains(name) ==> exists|k: int|
                0 <= k < names.len() && #[trigger] names[k] == name,
{
    assert(text_le(names[i], names[j]) && names[i] != names[j]);
    if text_le(names[j], names[i]) {
        text_le_is_antisymmetric(names[i], names[j]);
    }
    assert(names.contains(names[i]));
    assert forall|name: Seq<char>| members.contains(name) implies exists|k: int|
        0 <= k < names.len() && #[trigger] names[k] == name by {
        assert(names.contains(name));
    }
}

/// Whether a text is blank, and whether it holds white space, is found out by its characters.
pub proof fn white_space_is_looked_for_in_every_character(text: &str, r: bool, s: bool)
    requires
        call_ensures(is_blank, (text,), r),
        call_ensures(contains_white_space, (text,), s),
    ensures
        r <==> forall|i: int| 0 <= i < text@.len() ==> white_space(#[trigger] text@[i]),
        s <==> exists|i: int| 0 <= i < text@.len() && white_space(#[trigger] text@[i]),
{
}

} // verus!
