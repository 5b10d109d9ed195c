//! The entries of the chat transcript.

use std::collections::hash_map::DefaultHasher;
use std::hash::Hasher;
use vstd::prelude::*;
use vstd::utf8::*;

use crate::events::AgentToolStatus;

verus! {

/// One entry in the chat transcript.
#[derive(Debug, PartialEq)]
pub enum AgentItem {
    User(String),
    Assistant(String),
    Thought(String),
    Tool { id: String, title: String, status: AgentToolStatus },
    Error(String),
    Note(String),
}

/// What an [`AgentItem`] stands for.
#[verifier::ext_equal]
pub enum ItemView {
    User(Seq<char>),
    Assistant(Seq<char>),
    Thought(Seq<char>),
    Tool { id: Seq<char>, title: Seq<char>, status: AgentToolStatus },
    Error(Seq<char>),
    Note(Seq<char>),
}

impl View for AgentItem {
    type V = ItemView;

    open spec fn view(&self) -> ItemView {
        match self {
            AgentItem::User(text) => ItemView::User(text@),
            AgentItem::Assistant(text) => ItemView::Assistant(text@),
            AgentItem::Thought(text) => ItemView::Thought(text@),
            AgentItem::Tool { id, title, status } => ItemView::Tool {
                id: id@,
                title: title@,
                status: *status,
            },
            AgentItem::Error(text) => ItemView::Error(text@),
            AgentItem::Note(text) => ItemView::Note(text@),
        }
    }
}

impl Clone for AgentItem {
    fn clone(&self) -> (r: Self)
        ensures
            r@ == self@,
    {
        match self {
            AgentItem::User(text) => AgentItem::User(text.clone()),
            AgentItem::Assistant(text) => AgentItem::Assistant(text.clone()),
            AgentItem::Thought(text) => AgentItem::Thought(text.clone()),
            AgentItem::Tool { id, title, status } => AgentItem::Tool {
                id: id.clone(),
                title: title.clone(),
                status: *status,
            },
            AgentItem::Error(text) => AgentItem::Error(text.clone()),
            AgentItem::Note(text) => AgentItem::Note(text.clone()),
        }
    }
}

/// The number of a tool status.
pub open spec fn status_number(status: AgentToolStatus) -> u8 {
    match status {
        AgentToolStatus::Pending => 0,
        AgentToolStatus::InProgress => 1,
        AgentToolStatus::Completed => 2,
        AgentToolStatus::Failed => 3,
    }
}

/// The number of the kind of an entry.
pub open spec fn kind_number(item: ItemView) -> u8 {
    match item {
        ItemView::User(_) => 0,
        ItemView::Assistant(_) => 1,
        ItemView::Thought(_) => 2,
        ItemView::Tool { .. } => 3,
        ItemView::Error(_) => 4,
        ItemView::Note(_) => 5,
    }
}

/// What is hashed for a text entry of the kind numbered `tag`: the number, the text, and a byte
/// that no text holds.
pub open spec fn hashed_text(tag: u8, text: Seq<char>) -> Seq<Seq<u8>> {
    seq![seq![tag], encode_utf8(text), seq![0xffu8]]
}

/// What is hashed for an entry.
pub open spec fn hashed(item: ItemView) -> Seq<Seq<u8>> {
    let tag = kind_number(item);
    match item {
        ItemView::User(text) => hashed_text(tag, text),
        ItemView::Assistant(text) => hashed_text(tag, text),
        ItemView::Thought(text) => hashed_text(tag, text),
        ItemView::Tool { id, title, status } => seq![
            seq![tag],
            encode_utf8(id),
            seq![0xffu8],
            encode_utf8(title),
            seq![0xffu8],
            seq![status_number(status)],
        ],
        ItemView::Error(text) => hashed_text(tag, text),
        ItemView::Note(text) => hashed_text(tag, text),
    }
}

/// The hash of an entry.
pub open spec fn render_hash(item: ItemView) -> u64 {
    <DefaultHasher as vstd::std_specs::hash::DefaultHasherAdditionalSpecFns>::spec_finish(
        hashed(item),
    )
}

/// Hashes one byte.
fn hash_byte(hasher: &mut DefaultHasher, byte: u8)
    ensures
        final(hasher)@ == old(hasher)@.push(seq![byte]),
{
    let bytes: [u8; 1] = [byte];
    hasher.write(&bytes);
    assert(bytes@ =~= seq![byte]);
}

/// Hashes a text and the byte that ends it.
fn hash_text(hasher: &mut DefaultHasher, text: &str)
    ensures
        final(hasher)@ == old(hasher)@.push(encode_utf8(text@)).push(seq![0xffu8]),
{
    hasher.write(text.as_bytes());
    hash_byte(hasher, 0xff);
}

/// The number of a tool status.
fn number_of_status(status: AgentToolStatus) -> (r: u8)
    ensures
        r == status_number(status),
{
    match status {
        AgentToolStatus::Pending => 0,
        AgentToolStatus::InProgress => 1,
        AgentToolStatus::Completed => 2,
        AgentToolStatus::Failed => 3,
    }
}

impl AgentItem {
    /// A key that changes whenever the visible content changes, so the list view re-renders items
    /// that grow while streaming.
    pub fn render_key(&self) -> (r: u64)
        ensures
            r == render_hash(self@),
    {
        let mut hasher = DefaultHasher::new();
        match self {
            AgentItem::User(text) => {
                hash_byte(&mut hasher, 0);
                hash_text(&mut hasher, text.as_str());
            },
            AgentItem::Assistant(text) => {
                hash_byte(&mut hasher, 1);
                hash_text(&mut hasher, text.as_str());
            },
            AgentItem::Thought(text) => {
                hash_byte(&mut hasher, 2);
                hash_text(&mut hasher, text.as_str());
            },
            AgentItem::Tool { id, title, status } => {
                hash_byte(&mut hasher, 3);
                hash_text(&mut hasher, id.as_str());
                hash_text(&mut hasher, title.as_str());
                hash_byte(&mut hasher, number_of_status(*status));
            },
            AgentItem::Error(text) => {
                hash_byte(&mut hasher, 4);
                hash_text(&mut hasher, text.as_str());
            },
            AgentItem::Note(text) => {
                hash_byte(&mut hasher, 5);
                hash_text(&mut hasher, text.as_str());
            },
        }
        assert(hasher@ =~= hashed(self@));
        hasher.finish()
    }
}

/// The bytes of a character are none of them 0xff.
proof fn lemma_scalar_bytes(scalar: u32)
    ensures
        forall|i: int|
            0 <= i < encode_scalar(scalar).len() ==> #[trigger] encode_scalar(scalar)[i] != 0xffu8,
{
    assert(((scalar & 0x7F) as u8) != 0xff) by (bit_vector);
    assert(0xC0u8 | ((scalar >> 6) & 0x1F) as u8 != 0xff) by (bit_vector);
    assert(0xE0u8 | ((scalar >> 12) & 0x0F) as u8 != 0xff) by (bit_vector);
    assert(0xF0u8 | ((scalar >> 18) & 0x7) as u8 != 0xff) by (bit_vector);
    assert(0x80u8 | (scalar & 0x3F) as u8 != 0xff) by (bit_vector);
    assert(0x80u8 | ((scalar >> 6) & 0x3F) as u8 != 0xff) by (bit_vector);
    assert(0x80u8 | ((scalar >> 12) & 0x3F) as u8 != 0xff) by (bit_vector);
}

/// The bytes of a text are none of them 0xff.
proof fn lemma_text_bytes(text: Seq<char>)
    ensures
        forall|i: int|
            0 <= i < encode_utf8(text).len() ==> #[trigger] encode_utf8(text)[i] != 0xffu8,
    decreases text.len(),
{
    if text.len() > 0 {
        let first = encode_scalar(text[0] as u32);
        let rest = encode_utf8(text.drop_first());
        lemma_scalar_bytes(text[0] as u32);
        lemma_text_bytes(text.drop_first());
        assert(encode_utf8(text) == first + rest);
        assert forall|i: int| 0 <= i < (first + rest).len() implies #[trigger] (first + rest)[i]
            != 0xffu8 by {
            if i < first.len() {
                assert((first + rest)[i] == first[i]);
            } else {
                assert((first + rest)[i] == rest[i - first.len()]);
            }
        }
    }
}

/// The bytes of `text`, then 0xff, then `rest`, tell `text` and `rest`.
proof fn lemma_ended_text(a: Seq<char>, x: Seq<u8>, b: Seq<char>, y: Seq<u8>)
    requires
        ended(a, x) == ended(b, y),
    ensures
        a == b,
        x == y,
{
    let p = encode_utf8(a);
    let q = encode_utf8(b);
    let s = ended(a, x);
    let t = ended(b, y);
    lemma_text_bytes(a);
    lemma_text_bytes(b);
    assert(s[p.len() as int] == 0xffu8);
    assert(t[q.len() as int] == 0xffu8);
    if p.len() < q.len() {
        assert(t[p.len() as int] == q[p.len() as int]);
    }
    if q.len() < p.len() {
        assert(s[q.len() as int] == p[q.len() as int]);
    }
    assert(p =~= s.take(p.len() as int));
    assert(q =~= t.take(q.len() as int));
    encode_utf8_decode_utf8(a);
    encode_utf8_decode_utf8(b);
    assert(x =~= s.skip(p.len() as int + 1));
    assert(y =~= t.skip(q.len() as int + 1));
}

/// The bytes of a text and the byte that ends it, followed by `rest`.
pub open spec fn ended(text: Seq<char>, rest: Seq<u8>) -> Seq<u8> {
    encode_utf8(text) + seq![0xffu8] + rest
}

/// All that is hashed for an entry, as one run of bytes.
pub open spec fn hashed_bytes(item: ItemView) -> Seq<u8> {
    let tag = seq![kind_number(item)];
    match item {
        ItemView::User(text) => tag + ended(text, Seq::empty()),
        ItemView::Assistant(text) => tag + ended(text, Seq::empty()),
        ItemView::Thought(text) => tag + ended(text, Seq::empty()),
        ItemView::Tool { id, title, status } => tag + ended(
            id,
            ended(title, seq![status_number(status)]),
        ),
        ItemView::Error(text) => tag + ended(text, Seq::empty()),
        ItemView::Note(text) => tag + ended(text, Seq::empty()),
    }
}

/// The run of bytes is what is hashed, one piece after the other.
pub proof fn hashed_bytes_are_hashed(item: ItemView)
    ensures
        hashed_bytes(item) == hashed(item).flatten(),
{
    let pieces = hashed(item);
    pieces.lemma_flatten_and_flatten_alt_are_equivalent();
    reveal_with_fuel(Seq::flatten_alt, 7);
    assert(hashed_bytes(item) =~= pieces.flatten());
}

/// What is hashed for an entry tells the entry: entries that differ in anything are hashed from
/// different bytes.
pub proof fn different_items_are_hashed_differently(a: ItemView, b: ItemView)
    requires
        hashed_bytes(a) == hashed_bytes(b),
    ensures
        a == b,
{
    let s = hashed_bytes(a);
    let t = hashed_bytes(b);
    assert(s[0] == kind_number(a));
    assert(t[0] == kind_number(b));
    assert(s.skip(1) == t.skip(1));
    match (a, b) {
        (
            ItemView::Tool { id: i, title: x, status: m },
            ItemView::Tool { id: j, title: y, status: n },
        ) => {
            let u = ended(x, seq![status_number(m)]);
            let v = ended(y, seq![status_number(n)]);
            assert(s.skip(1) =~= ended(i, u));
            assert(t.skip(1) =~= ended(j, v));
            lemma_ended_text(i, u, j, v);
            lemma_ended_text(x, seq![status_number(m)], y, seq![status_number(n)]);
            assert(seq![status_number(m)][0] == seq![status_number(n)][0]);
        },
        (ItemView::User(x), ItemView::User(y)) => {
            lemma_same_tail(s, x, t, y);
        },
        (ItemView::Assistant(x), ItemView::Assistant(y)) => {
            lemma_same_tail(s, x, t, y);
        },
        (ItemView::Thought(x), ItemView::Thought(y)) => {
            lemma_same_tail(s, x, t, y);
        },
        (ItemView::Error(x), ItemView::Error(y)) => {
            lemma_same_tail(s, x, t, y);
        },
        (ItemView::Note(x), ItemView::Note(y)) => {
            lemma_same_tail(s, x, t, y);
        },
        _ => {},
    }
}

/// Two text entries of one kind that are hashed alike hold the same text.
proof fn lemma_same_tail(s: Seq<u8>, x: Seq<char>, t: Seq<u8>, y: Seq<char>)
    requires
        s.len() > 0,
        t.len() > 0,
        s.skip(1) == t.skip(1),
        s == seq![s[0]] + ended(x, Seq::empty()),
        t == seq![t[0]] + ended(y, Seq::empty()),
    ensures
        x == y,
{
    assert(s.skip(1) =~= ended(x, Seq::empty()));
    assert(t.skip(1) =~= ended(y, Seq::empty()));
    lemma_ended_text(x, Seq::empty(), y, Seq::empty());
}

/// The key of an entry is the hash of all that it shows: entries of which the same is hashed are
/// the same.
pub proof fn a_render_key_is_made_of_all_that_is_shown(item: &AgentItem, r: u64)
    requires
        call_ensures(AgentItem::render_key, (item,), r),
    ensures
        exists|pieces: Seq<Seq<u8>>|
            {
                &&& r
                    == #[trigger] <DefaultHasher as vstd::std_specs::hash::DefaultHasherAdditionalSpecFns>::spec_finish(
                    pieces,
                )
                &&& pieces.flatten() == hashed_bytes(item@)
                &&& forall|other: ItemView| #[trigger]
                    hashed_bytes(other) == pieces.flatten() ==> other == item@
            },
{
    hashed_bytes_are_hashed(item@);
    let pieces = hashed(item@);
    assert forall|other: ItemView| #[trigger]
        hashed_bytes(other) == pieces.flatten() implies other == item@ by {
        different_items_are_hashed_differently(other, item@);
    }
}

} // verus!
