//! Builds the text sent to the agent from the user's message and editor context.

use vstd::prelude::*;
use vstd::utf8::*;

use crate::events::opt_text;
use crate::paths::{FilePath, FilePathView};

verus! {

/// Maximum number of context bytes attached per file or selection.
pub const MAX_CONTEXT_BYTES: usize = 64_000;

/// A context item whose text has already been read.
#[derive(Debug)]
pub struct ResolvedContext {
    pub path: FilePath,
    pub selection: Option<String>,
    pub content: Option<String>,
}

/// What a [`ResolvedContext`] stands for.
#[verifier::ext_equal]
pub struct ContextView {
    pub path: FilePathView,
    pub selection: Option<Seq<char>>,
    pub content: Option<Seq<char>>,
}

impl View for ResolvedContext {
    type V = ContextView;

    open spec fn view(&self) -> ContextView {
        ContextView {
            path: self.path@,
            selection: opt_text(self.selection),
            content: opt_text(self.content),
        }
    }
}

/// The longest beginning of `text` that takes at most `max` bytes in UTF-8.
pub open spec fn cut(text: Seq<char>, max: nat) -> Seq<char>
    decreases text.len(),
{
    if encode_utf8(text).len() <= max || text.len() == 0 {
        text
    } else {
        cut(text.drop_last(), max)
    }
}

/// The bytes of a text are those of a beginning followed by those of the rest.
proof fn lemma_encode_split(text: Seq<char>, k: int)
    requires
        0 <= k <= text.len(),
    ensures
        encode_utf8(text) == encode_utf8(text.take(k)) + encode_utf8(text.skip(k)),
    decreases text.len(),
{
    if k == 0 {
        assert(text.skip(0) =~= text);
        assert(encode_utf8(text.take(0)) =~= Seq::<u8>::empty());
    } else {
        let rest = text.drop_first();
        lemma_encode_split(rest, k - 1);
        assert(text.take(k).drop_first() =~= rest.take(k - 1));
        assert(text.skip(k) =~= rest.skip(k - 1));
        assert(text.take(k)[0] == text[0]);
    }
}

/// A text with at least one character takes at least one byte.
proof fn lemma_encode_nonempty(text: Seq<char>)
    requires
        text.len() > 0,
    ensures
        encode_utf8(text).len() > 0,
{
    char_is_scalar(text[0]);
}

/// Where the first `k` characters of a text end, a character begins or the text ends.
proof fn lemma_boundary(text: Seq<char>, k: int)
    requires
        0 <= k <= text.len(),
    ensures
        is_char_boundary(encode_utf8(text), encode_utf8(text.take(k)).len() as int),
    decreases text.len(),
{
    let bytes = encode_utf8(text);
    encode_utf8_valid_utf8(text);
    if k == 0 {
        assert(encode_utf8(text.take(0)) =~= Seq::<u8>::empty());
    } else {
        let rest = text.drop_first();
        encode_utf8_first_scalar(text);
        assert(pop_first_scalar(bytes) =~= encode_utf8(rest));
        assert(text.take(k).drop_first() =~= rest.take(k - 1));
        assert(text.take(k)[0] == text[0]);
        lemma_boundary(rest, k - 1);
        lemma_encode_split(text, k);
    }
}

/// A beginning that fits, while one more character does not, is the cut.
proof fn lemma_cut(text: Seq<char>, k: int, max: nat)
    requires
        0 <= k <= text.len(),
        encode_utf8(text.take(k)).len() <= max,
        k < text.len() ==> encode_utf8(text.take(k + 1)).len() > max,
    ensures
        cut(text, max) == text.take(k),
    decreases text.len(),
{
    if k == text.len() {
        assert(text.take(k) =~= text);
    } else {
        lemma_encode_split(text, k + 1);
        let shorter = text.drop_last();
        assert(shorter.take(k) =~= text.take(k));
        if k + 1 < text.len() {
            assert(shorter.take(k + 1) =~= text.take(k + 1));
        }
        lemma_cut(shorter, k, max);
    }
}

/// Cuts `text` to at most `max` bytes without splitting a UTF-8 character.
pub fn truncate_utf8(text: &str, max: usize) -> (r: &str)
    ensures
        r@ == cut(text@, max as nat),
{
    let bytes = text.as_bytes();
    let ghost all = encode_utf8(text@);
    if bytes.len() <= max {
        return text;
    }
    proof {
        encode_utf8_valid_utf8(text@);
        is_char_boundary_start_end_of_seq(all);
    }
    let mut end: usize = max;
    while !text.is_char_boundary(end)
        invariant
            all == encode_utf8(text@),
            end <= max < all.len(),
            is_char_boundary(all, 0),
            forall|i: int| end < i <= max ==> !is_char_boundary(all, i),
        decreases end,
    {
        end = end - 1;
    }
    let (head, _tail) = text.split_at(end);
    proof {
        encode_utf8_decode_utf8(text@);
        encode_utf8_decode_utf8(head@);
        decode_utf8_split(all, end as int);
        let k = head@.len() as int;
        assert(head@ =~= text@.take(k));
        if k == text@.len() {
            assert(text@.take(k) =~= text@);
        } else {
            lemma_boundary(text@, k + 1);
            lemma_encode_split(text@.take(k + 1), k);
            assert(text@.take(k + 1).take(k) =~= text@.take(k));
            lemma_encode_nonempty(text@.take(k + 1).skip(k));
        }
        lemma_cut(text@, k, max as nat);
    }
    head
}

/// What is appended to a text of which `shown` is shown.
pub open spec fn cut_marker(body: Seq<char>, shown: Seq<char>) -> Seq<char> {
    if shown.len() < body.len() {
        "\n[truncated]"@
    } else {
        Seq::empty()
    }
}

/// The fenced block that shows `body`.
pub open spec fn fenced(shown: Seq<char>, kind: Seq<char>, body: Seq<char>) -> Seq<char> {
    let part = cut(body, MAX_CONTEXT_BYTES as nat);
    "Context from "@ + shown + " ("@ + kind + "):\n```\n"@ + part + cut_marker(body, part)
        + "\n```\n\n"@
}

/// The block of one context item: of the selection where there is one, else of the file's text;
/// nothing where there is neither.
pub open spec fn context_block(context: ContextView) -> Seq<char> {
    match (context.selection, context.content) {
        (Some(selection), _) => fenced(context.path.shown, "selection"@, selection),
        (None, Some(content)) => fenced(context.path.shown, "file"@, content),
        (None, None) => Seq::empty(),
    }
}

/// The blocks of the context items, in order.
pub open spec fn context_blocks(contexts: Seq<ContextView>) -> Seq<char>
    decreases contexts.len(),
{
    if contexts.len() == 0 {
        Seq::empty()
    } else {
        context_blocks(contexts.drop_last()) + context_block(contexts.last())
    }
}

/// What the context items stand for, one by one.
pub open spec fn contexts_view(contexts: Seq<ResolvedContext>) -> Seq<ContextView> {
    contexts.map_values(|context: ResolvedContext| context@)
}

/// Appends the fenced block that shows `body`.
fn append_fenced(out: &mut String, shown: &str, kind: &str, body: &str)
    ensures
        final(out)@ == old(out)@ + fenced(shown@, kind@, body@),
{
    let part = truncate_utf8(body, MAX_CONTEXT_BYTES);
    let cut_short = part.as_bytes().len() < body.as_bytes().len();
    proof {
        lemma_cut_is_prefix(body@, MAX_CONTEXT_BYTES as nat);
        if part@.len() < body@.len() {
            lemma_encode_split(body@, part@.len() as int);
            lemma_encode_nonempty(body@.skip(part@.len() as int));
        } else {
            assert(part@ =~= body@);
        }
    }
    out.append("Context from ");
    out.append(shown);
    out.append(" (");
    out.append(kind);
    out.append("):\n```\n");
    out.append(part);
    if cut_short {
        out.append("\n[truncated]");
    }
    out.append("\n```\n\n");
    assert(out@ =~= old(out)@ + fenced(shown@, kind@, body@));
}

/// A cut text is a beginning of the text.
proof fn lemma_cut_is_prefix(text: Seq<char>, max: nat)
    ensures
        cut(text, max).len() <= text.len(),
        cut(text, max) == text.take(cut(text, max).len() as int),
        encode_utf8(cut(text, max)).len() <= max,
    decreases text.len(),
{
    if encode_utf8(text).len() <= max || text.len() == 0 {
        assert(text.take(text.len() as int) =~= text);
    } else {
        lemma_cut_is_prefix(text.drop_last(), max);
        let n = cut(text, max).len() as int;
        assert(text.drop_last().take(n) =~= text.take(n));
    }
}

/// Builds the prompt: one fenced block per context item, then the user text.
pub fn build_prompt_text(user_text: &str, contexts: &[ResolvedContext]) -> (r: String)
    ensures
        r@ == context_blocks(contexts_view(contexts@)) + user_text@,
{
    let mut out = String::new();
    let ghost views = contexts_view(contexts@);
    let mut i: usize = 0;
    while i < contexts.len()
        invariant
            i <= contexts.len(),
            views == contexts_view(contexts@),
            out@ == context_blocks(views.take(i as int)),
        decreases contexts.len() - i,
    {
        let context = &contexts[i];
        proof {
            assert(views.take(i + 1).drop_last() =~= views.take(i as int));
            assert(views.take(i + 1).last() == context@);
        }
        match (&context.selection, &context.content) {
            (Some(selection), _) => {
                append_fenced(
                    &mut out,
                    context.path.shown.as_str(),
                    "selection",
                    selection.as_str(),
                );
            },
            (None, Some(content)) => {
                append_fenced(&mut out, context.path.shown.as_str(), "file", content.as_str());
            },
            (None, None) => {},
        }
        i = i + 1;
        assert(out@ =~= context_blocks(views.take(i as int)));
    }
    assert(views.take(views.len() as int) =~= views);
    out.append(user_text);
    out
}

/// What is attached of a text is a beginning of it that takes at most `max` bytes, and all of it
/// where it fits.
pub proof fn cut_keeps_to_the_limit(text: Seq<char>, max: nat)
    ensures
        cut(text, max).is_prefix_of(text),
        encode_utf8(cut(text, max)).len() <= max,
        encode_utf8(text).len() <= max ==> cut(text, max) == text,
{
    lemma_cut_is_prefix(text, max);
}

/// Nothing longer would have fitted: every longer beginning of the text is over the limit.
pub proof fn cut_is_the_longest(text: Seq<char>, max: nat, k: int)
    requires
        cut(text, max).len() < k <= text.len(),
    ensures
        encode_utf8(text.take(k)).len() > max,
    decreases text.len(),
{
    if k == text.len() {
        assert(text.take(k) =~= text);
    } else {
        cut_is_the_longest(text.drop_last(), max, k);
        assert(text.drop_last().take(k) =~= text.take(k));
    }
}

/// The blocks of two lists of context items, one after the other, are those of the joined list.
pub proof fn blocks_of_joined_lists_join(a: Seq<ContextView>, b: Seq<ContextView>)
    ensures
        context_blocks(a + b) == context_blocks(a) + context_blocks(b),
    decreases b.len(),
{
    if b.len() == 0 {
        assert(a + b =~= a);
        assert(context_blocks(a) + context_blocks(b) =~= context_blocks(a));
    } else {
        blocks_of_joined_lists_join(a, b.drop_last());
        assert((a + b).drop_last() =~= a + b.drop_last());
        assert(context_blocks(a + b) =~= context_blocks(a) + context_blocks(b));
    }
}

/// A context item with no text adds nothing, wherever it stands.
pub proof fn context_without_text_is_skipped(
    before: Seq<ContextView>,
    empty: ContextView,
    after: Seq<ContextView>,
)
    requires
        empty.selection is None,
        empty.content is None,
    ensures
        context_blocks(before.push(empty) + after) == context_blocks(before + after),
    decreases after.len(),
{
    if after.len() == 0 {
        assert(before.push(empty) + after =~= before.push(empty));
        assert(before + after =~= before);
        assert(before.push(empty).drop_last() =~= before);
        assert(context_blocks(before) + Seq::<char>::empty() =~= context_blocks(before));
    } else {
        context_without_text_is_skipped(before, empty, after.drop_last());
        assert((before.push(empty) + after).drop_last() =~= before.push(empty)
            + after.drop_last());
        assert((before + after).drop_last() =~= before + after.drop_last());
    }
}

/// Whether a context item has a text to attach.
pub open spec fn has_text(context: ContextView) -> bool {
    context.selection is Some || context.content is Some
}

/// The context items that have a text to attach, in order.
pub open spec fn with_text(contexts: Seq<ContextView>) -> Seq<ContextView>
    decreases contexts.len(),
{
    if contexts.len() == 0 {
        Seq::empty()
    } else if has_text(contexts.last()) {
        with_text(contexts.drop_last()).push(contexts.last())
    } else {
        with_text(contexts.drop_last())
    }
}

/// Leaving out the context items without text does not change the prompt.
pub proof fn skipping_items_without_text_is_not_seen(contexts: Seq<ContextView>)
    ensures
        context_blocks(with_text(contexts)) == context_blocks(contexts),
    decreases contexts.len(),
{
    if contexts.len() > 0 {
        let before = contexts.drop_last();
        skipping_items_without_text_is_not_seen(before);
        if has_text(contexts.last()) {
            assert(with_text(before).push(contexts.last()).drop_last() =~= with_text(before));
        } else {
            assert(context_blocks(before) + Seq::<char>::empty() =~= context_blocks(before));
        }
    }
}

/// Where there is a selection, the file's text is not attached: it makes no difference.
pub proof fn selection_wins_over_content(
    path: FilePathView,
    selection: Seq<char>,
    a: Option<Seq<char>>,
    b: Option<Seq<char>>,
)
    ensures
        context_block(ContextView { path, selection: Some(selection), content: a })
            == context_block(ContextView { path, selection: Some(selection), content: b }),
{
}

/// Of a text of at most 64000 bytes all is attached, and of a longer one at most as much.
pub proof fn up_to_the_limit_all_is_attached(text: Seq<char>)
    ensures
        encode_utf8(text).len() <= 64_000 ==> cut(text, MAX_CONTEXT_BYTES as nat) == text,
        encode_utf8(cut(text, MAX_CONTEXT_BYTES as nat)).len() <= 64_000,
{
    lemma_cut_is_prefix(text, MAX_CONTEXT_BYTES as nat);
}

/// What [`truncate_utf8`] leaves is a beginning of the text that keeps to the limit, such that one
/// character more would not.
pub proof fn as_much_as_fits_is_left(text: &str, max: usize, r: &str)
    requires
        call_ensures(truncate_utf8, (text, max), r),
    ensures
        r@.len() <= text@.len(),
        r@ == text@.take(r@.len() as int),
        encode_utf8(r@).len() <= max,
        r@.len() < text@.len() ==> encode_utf8(text@.take(r@.len() as int + 1)).len() > max,
{
    lemma_cut_is_prefix(text@, max as nat);
    if r@.len() < text@.len() {
        cut_is_the_longest(text@, max as nat, r@.len() as int + 1);
    }
}

/// A selection is attached as it is, behind a line that names the file and says that it is a
/// selection, and between fences; a longer one is cut and marked as cut.
pub proof fn a_selection_is_attached_as_it_is(
    path: FilePathView,
    selection: Seq<char>,
    content: Option<Seq<char>>,
)
    ensures
        ({
            let block = context_block(
                ContextView { path, selection: Some(selection), content },
            );
            let head = "Context from "@ + path.shown + " (selection):\n```\n"@;
            &&& encode_utf8(selection).len() <= 64_000 ==> block == head + selection + "\n```\n\n"@
            &&& encode_utf8(selection).len() > 64_000 ==> block == head + cut(selection, 64_000)
                + "\n[truncated]\n```\n\n"@
        }),
{
    lemma_fenced(path.shown, "selection"@, selection);
    reveal_strlit(" (");
    reveal_strlit("selection");
    reveal_strlit("):\n```\n");
    reveal_strlit(" (selection):\n```\n");
    let middle = " ("@ + "selection"@ + "):\n```\n"@;
    assert(middle =~= " (selection):\n```\n"@);
    assert("Context from "@ + path.shown + " ("@ + "selection"@ + "):\n```\n"@
        =~= "Context from "@ + path.shown + middle);
}

/// The text of a file is attached as it is where there is no selection, behind a line that names
/// the file and says that it is a file, and between fences; a longer one is cut and marked as cut.
pub proof fn a_file_is_attached_as_it_is(path: FilePathView, content: Seq<char>)
    ensures
        ({
            let block = context_block(
                ContextView { path, selection: None, content: Some(content) },
            );
            let head = "Context from "@ + path.shown + " (file):\n```\n"@;
            &&& encode_utf8(content).len() <= 64_000 ==> block == head + content + "\n```\n\n"@
            &&& encode_utf8(content).len() > 64_000 ==> block == head + cut(content, 64_000)
                + "\n[truncated]\n```\n\n"@
        }),
{
    lemma_fenced(path.shown, "file"@, content);
    reveal_strlit(" (");
    reveal_strlit("file");
    reveal_strlit("):\n```\n");
    reveal_strlit(" (file):\n```\n");
    let middle = " ("@ + "file"@ + "):\n```\n"@;
    assert(middle =~= " (file):\n```\n"@);
    assert("Context from "@ + path.shown + " ("@ + "file"@ + "):\n```\n"@ =~= "Context from "@
        + path.shown + middle);
}

/// A block by whether all of its text is shown.
proof fn lemma_fenced(shown: Seq<char>, kind: Seq<char>, body: Seq<char>)
    ensures
        ({
            let head = "Context from "@ + shown + " ("@ + kind + "):\n```\n"@;
            &&& encode_utf8(body).len() <= 64_000 ==> fenced(shown, kind, body) == head + body
                + "\n```\n\n"@
            &&& encode_utf8(body).len() > 64_000 ==> fenced(shown, kind, body) == head + cut(
                body,
                64_000,
            ) + "\n[truncated]\n```\n\n"@
        }),
{
    let head = "Context from "@ + shown + " ("@ + kind + "):\n```\n"@;
    let part = cut(body, 64_000);
    lemma_cut_is_prefix(body, 64_000);
    if encode_utf8(body).len() <= 64_000 {
        assert(head + part + Seq::<char>::empty() =~= head + part);
    } else {
        if part.len() == body.len() {
            assert(part =~= body);
        }
        reveal_strlit("\n[truncated]");
        reveal_strlit("\n```\n\n");
        reveal_strlit("\n[truncated]\n```\n\n");
        assert("\n[truncated]"@ + "\n```\n\n"@ =~= "\n[truncated]\n```\n\n"@);
        assert(head + part + "\n[truncated]"@ + "\n```\n\n"@ =~= head + part + (
        "\n[truncated]"@ + "\n```\n\n"@));
    }
}

/// One item makes one block, no item makes none, and the user's text stands behind all blocks as it
/// is.
pub proof fn the_user_text_ends_the_prompt(
    user_text: &str,
    contexts: &[ResolvedContext],
    r: String,
)
    requires
        call_ensures(build_prompt_text, (user_text, contexts), r),
    ensures
        contexts@.len() == 0 ==> r@ == user_text@,
        contexts@.len() == 1 ==> r@ == context_block(contexts@[0]@) + user_text@,
        user_text@.is_suffix_of(r@),
        r@.len() >= user_text@.len(),
{
    let views = contexts_view(contexts@);
    reveal_with_fuel(context_blocks, 2);
    if contexts@.len() == 0 {
        assert(r@ =~= user_text@);
    }
    if contexts@.len() == 1 {
        assert(views.drop_last() =~= Seq::<ContextView>::empty());
        assert(views.last() == contexts@[0]@);
        assert(context_blocks(views) =~= context_block(contexts@[0]@));
    }
    assert(user_text@ =~= r@.subrange(r@.len() - user_text@.len(), r@.len() as int));
}

/// The items with a text are picked one by one, in order: an item stays exactly where it has a
/// selection or a content, and stays as it is.
pub proof fn items_with_text_are_picked_one_by_one(
    a: Seq<ContextView>,
    b: Seq<ContextView>,
    item: ContextView,
)
    ensures
        with_text(a + b) == with_text(a) + with_text(b),
        item.selection is Some || item.content is Some ==> with_text(seq![item]) == seq![item],
        item.selection is None && item.content is None ==> with_text(seq![item]).len() == 0,
        with_text(Seq::empty()).len() == 0,
    decreases b.len(),
{
    reveal_with_fuel(with_text, 2);
    assert(seq![item].drop_last() =~= Seq::<ContextView>::empty());
    if item.selection is Some || item.content is Some {
        assert(with_text(seq![item]) =~= seq![item]);
    }
    if b.len() == 0 {
        assert(a + b =~= a);
        assert(with_text(a) + with_text(b) =~= with_text(a));
    } else {
        items_with_text_are_picked_one_by_one(a, b.drop_last(), item);
        assert((a + b).drop_last() =~= a + b.drop_last());
        assert(with_text(a + b) =~= with_text(a) + with_text(b));
    }
}

/// A resolved item stands for its path, its selection and its content.
pub proof fn a_resolved_item_is_told_by_its_view(item: ResolvedContext)
    ensures
        item@.path == item.path@,
        item.selection is Some <==> item@.selection is Some,
        item.selection is Some ==> item@.selection == Some(item.selection->0@),
        item.content is Some <==> item@.content is Some,
        item.content is Some ==> item@.content == Some(item.content->0@),
{
}

} // verus!
