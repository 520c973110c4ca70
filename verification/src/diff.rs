//! What an edit changed: the word diff of two texts, flattened.
//!
//! The diff of a text before and after an edit is a list of tokens, each
//! tagged as kept, deleted or inserted; a run of white space is a token as
//! a word is. The change text of the edit is the deleted and inserted
//! tokens in the order of the diff, with nothing put between them and the
//! kept tokens left out, and without the white space at its two ends. White
//! space between changed words stays.

use crate::text::chars_of;
use similar::TextDiff;
use vstd::prelude::*;
use vstd::string::StringExecFns;

verus! {

/// How a token of a diff relates the two texts.
#[derive(Debug, Clone, Copy, PartialEq, Eq, Structural)]
pub enum ChangeTag {
    /// The token stands in both texts.
    Equal,
    /// The token stands in the old text only.
    Delete,
    /// The token stands in the new text only.
    Insert,
}

/// One token of a diff.
#[derive(Debug)]
pub struct Change {
    pub tag: ChangeTag,
    pub value: String,
}

/// A token of a diff as a mathematical value.
pub struct ChangeView {
    pub tag: ChangeTag,
    pub value: Seq<char>,
}

impl View for Change {
    type V = ChangeView;

    open spec fn view(&self) -> ChangeView {
        ChangeView { tag: self.tag, value: self.value@ }
    }
}

/// The tokens of a list as mathematical values.
pub open spec fn change_views(changes: Seq<Change>) -> Seq<ChangeView> {
    changes.map_values(|c: Change| c@)
}

/// The longest pair of texts, in characters of both together, that the
/// word diff is asked for. The diff numbers the distinct tokens of both
/// texts with 32 bits and sizes its tables by the number of tokens; within
/// this limit that arithmetic stays in range, on 32-bit machines too.
pub const DIFF_LIMIT: u64 = 0x7fff_ffff;

/// The word diff of `old` and `new`: every token of both texts in the
/// order of the diff, each with its tag.
pub uninterp spec fn word_diff(old: Seq<char>, new: Seq<char>) -> Seq<ChangeView>;

/// `similar::TextDiff::from_words` and `iter_all_changes` on its result.
///
/// Taken on trust: the changes that come out are a function of the two
/// texts alone, here called `word_diff`. The diff is made with the default
/// configuration, which sets no deadline, so that no clock has a say. Each
/// change is handed on with its tag and its token. Of two equal texts the
/// diff keeps every token: it takes what the texts have in common at their
/// start before it looks for changes, and that is all there is. Texts
/// beyond `DIFF_LIMIT` are kept away from it.
#[verifier::external_body]
fn word_changes(old: &str, new: &str) -> (changes: Vec<Change>)
    requires
        old@.len() + new@.len() <= DIFF_LIMIT,
    ensures
        change_views(changes@) == word_diff(old@, new@),
        old@ == new@ ==> all_kept(change_views(changes@)),
{
    let diff = TextDiff::from_words(old, new);
    let mut changes = Vec::new();
    for change in diff.iter_all_changes() {
        let tag = match change.tag() {
            similar::ChangeTag::Equal => ChangeTag::Equal,
            similar::ChangeTag::Delete => ChangeTag::Delete,
            similar::ChangeTag::Insert => ChangeTag::Insert,
        };
        changes.push(Change { tag, value: change.value().to_string() });
    }
    changes
}

/// Whether every token of a diff is tagged as kept.
pub open spec fn all_kept(changes: Seq<ChangeView>) -> bool {
    forall|i: int| 0 <= i < changes.len() ==> (#[trigger] changes[i]).tag == ChangeTag::Equal
}

/// The tokens tagged as deleted or inserted, joined in the order of the
/// diff; the kept tokens are dropped.
pub open spec fn flattened(changes: Seq<ChangeView>) -> Seq<char>
    decreases changes.len(),
{
    if changes.len() == 0 {
        Seq::empty()
    } else if changes.last().tag == ChangeTag::Equal {
        flattened(changes.drop_last())
    } else {
        flattened(changes.drop_last()) + changes.last().value
    }
}

/// A diff of kept tokens only has an empty change text.
pub proof fn lemma_flattened_of_kept(changes: Seq<ChangeView>)
    requires
        all_kept(changes),
    ensures
        flattened(changes) == Seq::<char>::empty(),
    decreases changes.len(),
{
    if changes.len() > 0 {
        lemma_flattened_of_kept(changes.drop_last());
    }
}

/// The change text of two diffs one after the other is the change text of
/// the first followed by that of the second: flattening keeps the order.
pub proof fn lemma_flattened_in_order(first: Seq<ChangeView>, second: Seq<ChangeView>)
    ensures
        flattened(first + second) == flattened(first) + flattened(second),
    decreases second.len(),
{
    if second.len() > 0 {
        let whole = first + second;
        assert(whole.drop_last() == first + second.drop_last());
        lemma_flattened_in_order(first, second.drop_last());
    }
}

/// Flattens a diff into its change text.
pub fn flatten(changes: &Vec<Change>) -> (text: String)
    ensures
        text@ == flattened(change_views(changes@)),
{
    let ghost views = change_views(changes@);
    let mut text = String::new();
    let mut i: usize = 0;
    while i < changes.len()
        invariant
            i <= changes.len(),
            views == change_views(changes@),
            text@ == flattened(views.take(i as int)),
        decreases changes.len() - i,
    {
        proof {
            let longer = views.take(i + 1);
            assert(longer.drop_last() == views.take(i as int));
        }
        match changes[i].tag {
            ChangeTag::Equal => {},
            ChangeTag::Delete => {
                text.append(changes[i].value.as_str());
            },
            ChangeTag::Insert => {
                text.append(changes[i].value.as_str());
            },
        }
        i = i + 1;
    }
    assert(views.take(i as int) == views);
    text
}

/// Whether `c` is white space, as Unicode has it.
pub open spec fn is_space(c: char) -> bool {
    let n = c as u32;
    ||| 0x09 <= n <= 0x0D
    ||| n == 0x20
    ||| n == 0x85
    ||| n == 0xA0
    ||| n == 0x1680
    ||| 0x2000 <= n <= 0x200A
    ||| n == 0x2028
    ||| n == 0x2029
    ||| n == 0x202F
    ||| n == 0x205F
    ||| n == 0x3000
}

/// The number of white-space characters at the start of `text`.
pub open spec fn leading_spaces(text: Seq<char>) -> nat
    decreases text.len(),
{
    if text.len() > 0 && is_space(text.first()) {
        1 + leading_spaces(text.drop_first())
    } else {
        0
    }
}

/// The number of white-space characters at the end of `text`.
pub open spec fn trailing_spaces(text: Seq<char>) -> nat
    decreases text.len(),
{
    if text.len() > 0 && is_space(text.last()) {
        1 + trailing_spaces(text.drop_last())
    } else {
        0
    }
}

/// `text` without the white space at its two ends: the part from its first
/// character that is no white space to its last. What lies between them
/// stays, white space too. A text of white space alone leaves nothing.
pub open spec fn trimmed(text: Seq<char>) -> Seq<char> {
    if leading_spaces(text) == text.len() {
        Seq::empty()
    } else {
        text.subrange(leading_spaces(text) as int, text.len() - trailing_spaces(text))
    }
}

/// The change text of a diff: its deleted and inserted tokens joined in
/// order, without the white space at the two ends.
pub open spec fn change_text(changes: Seq<ChangeView>) -> Seq<char> {
    trimmed(flattened(changes))
}

/// The white space at the start of a text is white space, and what follows
/// it is none.
pub proof fn lemma_leading_spaces(text: Seq<char>)
    ensures
        leading_spaces(text) <= text.len(),
        forall|i: int| 0 <= i < leading_spaces(text) ==> is_space(#[trigger] text[i]),
        leading_spaces(text) < text.len() ==> !is_space(text[leading_spaces(text) as int]),
    decreases text.len(),
{
    if text.len() > 0 && is_space(text.first()) {
        let rest = text.drop_first();
        lemma_leading_spaces(rest);
        assert forall|i: int| 0 <= i < leading_spaces(text) implies is_space(#[trigger] text[i]) by {
            if i > 0 {
                assert(text[i] == rest[i - 1]);
            }
        }
    }
}

/// The white space at the end of a text is white space, and what stands
/// before it is none.
pub proof fn lemma_trailing_spaces(text: Seq<char>)
    ensures
        trailing_spaces(text) <= text.len(),
        forall|i: int|
            text.len() - trailing_spaces(text) <= i < text.len() ==> is_space(#[trigger] text[i]),
        trailing_spaces(text) < text.len() ==> !is_space(
            text[text.len() - trailing_spaces(text) - 1],
        ),
    decreases text.len(),
{
    if text.len() > 0 && is_space(text.last()) {
        let rest = text.drop_last();
        lemma_trailing_spaces(rest);
        assert forall|i: int| text.len() - trailing_spaces(text) <= i < text.len() implies is_space(
            #[trigger] text[i],
        ) by {
            if i < text.len() - 1 {
                assert(text[i] == rest[i]);
            }
        }
    }
}

/// A text that neither starts nor ends with white space is left as it is;
/// so is the empty text.
pub proof fn lemma_trimmed_of_plain(text: Seq<char>)
    requires
        text.len() > 0 ==> !is_space(text.first()) && !is_space(text.last()),
    ensures
        trimmed(text) == text,
{
    if text.len() > 0 {
        assert(text.subrange(0, text.len() as int) == text);
    }
}

/// Whether `c` is white space.
pub fn is_whitespace(c: char) -> (space: bool)
    ensures
        space == is_space(c),
{
    let n: u32 = c as u32;
    (0x09 <= n && n <= 0x0D) || n == 0x20 || n == 0x85 || n == 0xA0 || n == 0x1680 || (0x2000 <= n
        && n <= 0x200A) || n == 0x2028 || n == 0x2029 || n == 0x202F || n == 0x205F || n == 0x3000
}

/// Takes the white space off the two ends of `text`.
pub fn trim(text: &str) -> (inner: String)
    ensures
        inner@ == trimmed(text@),
{
    let chars = chars_of(text);
    let n: usize = chars.len();
    let mut start: usize = 0;
    assert(chars@.subrange(0, n as int) == chars@);
    while start < n && is_whitespace(chars[start])
        invariant
            start <= n,
            n == chars.len(),
            leading_spaces(chars@) == start + leading_spaces(chars@.subrange(start as int, n as int)),
        decreases n - start,
    {
        assert(chars@.subrange(start as int, n as int).drop_first() == chars@.subrange(
            start + 1,
            n as int,
        ));
        start = start + 1;
    }
    if start == n {
        return String::new();
    }
    let mut end: usize = n;
    assert(chars@.subrange(0, n as int) == chars@);
    proof {
        lemma_leading_spaces(chars@);
    }
    while end > start + 1 && is_whitespace(chars[end - 1])
        invariant
            start < end <= n,
            n == chars.len(),
            !is_space(chars@[start as int]),
            trailing_spaces(chars@) == (n - end) + trailing_spaces(chars@.subrange(0, end as int)),
        decreases end,
    {
        assert(chars@.subrange(0, end as int).drop_last() == chars@.subrange(0, end - 1));
        end = end - 1;
    }
    assert(trailing_spaces(chars@) == n - end) by {
        if end == start + 1 {
            assert(chars@.subrange(0, end as int).last() == chars@[start as int]);
        }
    }
    let mut inner = String::new();
    let mut i: usize = start;
    while i < end
        invariant
            start <= i <= end <= n,
            n == chars.len(),
            inner@ == chars@.subrange(start as int, i as int),
        decreases end - i,
    {
        inner.push(chars[i]);
        assert(chars@.subrange(start as int, i + 1) == chars@.subrange(start as int, i as int).push(
            chars@[i as int],
        ));
        i = i + 1;
    }
    inner
}

/// The change text between `before` and `after`: the deleted and inserted
/// tokens of their word diff, joined in order, without the white space at
/// the two ends. It is empty where the two texts are the same.
pub fn extract_change(before: &str, after: &str) -> (text: String)
    requires
        before@.len() + after@.len() <= DIFF_LIMIT,
    ensures
        text@ == change_text(word_diff(before@, after@)),
        before@ == after@ ==> text@ == Seq::<char>::empty(),
{
    let changes = word_changes(before, after);
    proof {
        if before@ == after@ {
            lemma_flattened_of_kept(change_views(changes@));
        }
    }
    let flat = flatten(&changes);
    trim(flat.as_str())
}

} // verus!
