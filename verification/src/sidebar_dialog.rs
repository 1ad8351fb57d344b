//! The sidebar's dialogs: a single-line text prompt and a yes/no
//! confirmation, as state machines over key and mouse events. Painting
//! and the completion callbacks belong to the window that shows them.

use crate::text::{char_string, clone_strings, flatten_newlines, single_line, split_at_newlines, split_lines, views};
use vstd::prelude::*;
use vstd::string::*;
use vstd::seq_lib::lemma_flatten_concat;

verus! {

broadcast use vstd::seq_lib::group_seq_properties;

/// Which dialog button a hit refers to.
#[derive(Clone, Copy, Debug, PartialEq, Eq)]
pub enum DialogButton {
    Cancel,
    Confirm,
}

/// The extended grapheme clusters of a string, in order, as
/// `finl_unicode::grapheme_clusters::Graphemes` segments it.
pub uninterp spec fn grapheme_clusters(s: Seq<char>) -> Seq<Seq<char>>;

/// Calls `finl_unicode::grapheme_clusters::Graphemes::new(s)` and
/// collects the clusters. The iterator hands out consecutive slices of
/// `s`, each holding at least the character it starts at, so the
/// clusters are non-empty and together spell `s`. Where the boundaries
/// fall is not stated: that is `grapheme_clusters`.
#[verifier::external_body]
fn graphemes(s: &str) -> (r: Vec<String>)
    ensures
        views(r@) == grapheme_clusters(s@),
        views(r@).flatten() == s@,
        forall|i: int| 0 <= i < r@.len() ==> (#[trigger] r@[i])@.len() > 0,
{
    finl_unicode::grapheme_clusters::Graphemes::new(s).map(|g| g.to_string()).collect()
}

/// Where the cursor lands when it steps back over one grapheme: before
/// the last cluster of the text in front of it, or at 0.
pub open spec fn prev_boundary(text: Seq<char>, cursor: int) -> int {
    let g = grapheme_clusters(text.take(cursor));
    if g.len() == 0 {
        0
    } else {
        cursor - g.last().len()
    }
}

/// Where the cursor lands when it steps forward over one grapheme:
/// after the first cluster of the text behind it, or where it is.
pub open spec fn next_boundary(text: Seq<char>, cursor: int) -> int {
    let g = grapheme_clusters(text.skip(cursor));
    if g.len() == 0 {
        cursor
    } else {
        cursor + g[0].len()
    }
}

/// The number of characters in the first `k` parts.
pub open spec fn prefix_len(parts: Seq<Seq<char>>, k: int) -> int {
    parts.take(k).flatten().len() as int
}

/// The first boundary between `parts` at or after `pos`, looking from
/// part `k` on: `pos` itself where a part starts there, else the end
/// of the part holding `pos`, or the end of the last part when `pos`
/// lies beyond it.
pub open spec fn boundary_from(parts: Seq<Seq<char>>, pos: int, k: int) -> int
    decreases parts.len() - k,
{
    if 0 <= k < parts.len() && prefix_len(parts, k) < pos {
        boundary_from(parts, pos, k + 1)
    } else {
        prefix_len(parts, k)
    }
}

/// `pos` is a grapheme boundary of `text`: where one of its clusters
/// starts, or its end.
pub open spec fn is_boundary(text: Seq<char>, pos: int) -> bool {
    exists|k: int|
        0 <= k <= grapheme_clusters(text).len() && #[trigger] prefix_len(grapheme_clusters(text), k)
            == pos
}

/// The first grapheme boundary of `text` at or after `pos`.
pub open spec fn snap_boundary(text: Seq<char>, pos: int) -> int {
    boundary_from(grapheme_clusters(text), pos, 0)
}

/// One more part adds its characters to the prefix.
proof fn lemma_prefix_step(parts: Seq<Seq<char>>, k: int)
    requires
        0 <= k < parts.len(),
    ensures
        prefix_len(parts, k + 1) == prefix_len(parts, k) + parts[k].len(),
        parts.take(k + 1).flatten() == parts.take(k).flatten() + parts[k],
{
    assert(parts.take(k + 1) =~= parts.take(k).push(parts[k]));
    parts.take(k).lemma_flatten_push(parts[k]);
}

/// A prefix of the parts is no longer than all of them.
proof fn lemma_prefix_le(parts: Seq<Seq<char>>, k: int)
    requires
        0 <= k <= parts.len(),
    ensures
        prefix_len(parts, k) <= parts.flatten().len(),
{
    lemma_flatten_concat(parts.take(k), parts.skip(k));
    assert(parts.take(k) + parts.skip(k) =~= parts);
}

/// `boundary_from` lands on the end of some prefix of the parts, at or
/// after `pos` unless it is the end of all of them.
proof fn lemma_boundary_from(parts: Seq<Seq<char>>, pos: int, k: int) -> (j: int)
    requires
        0 <= k <= parts.len(),
    ensures
        k <= j <= parts.len(),
        boundary_from(parts, pos, k) == prefix_len(parts, j),
        j < parts.len() ==> pos <= prefix_len(parts, j),
    decreases parts.len() - k,
{
    if k < parts.len() && prefix_len(parts, k) < pos {
        lemma_boundary_from(parts, pos, k + 1)
    } else {
        k
    }
}

/// The first boundary at or after `pos` between `parts`, the clusters
/// of a text: `pos` itself where a part starts there, else the end of
/// the part holding `pos`.
pub fn boundary_at_or_after(parts: &[String], pos: usize) -> (r: usize)
    requires
        views(parts@).flatten().len() <= usize::MAX,
    ensures
        r == boundary_from(views(parts@), pos as int, 0),
{
    let ghost ps = views(parts@);
    let mut k: usize = 0;
    let mut sum: usize = 0;
    assert(ps.take(0) =~= Seq::<Seq<char>>::empty());
    while k < parts.len() && sum < pos
        invariant
            k <= parts@.len(),
            ps == views(parts@),
            ps.flatten().len() <= usize::MAX,
            sum == prefix_len(ps, k as int),
            boundary_from(ps, pos as int, 0) == boundary_from(ps, pos as int, k as int),
        decreases parts@.len() - k,
    {
        proof {
            lemma_prefix_step(ps, k as int);
            lemma_prefix_le(ps, k + 1);
            assert(ps[k as int] == parts@[k as int]@);
        }
        sum = sum + parts[k].as_str().unicode_len();
        k = k + 1;
    }
    sum
}

/// Where a cursor at `cursor` steps back to over one grapheme, given
/// `parts`, the clusters of the text before it: before the last part,
/// or 0 when there is none. The characters stepped over are that last
/// part.
pub fn step_back(parts: &[String], cursor: usize) -> (r: usize)
    requires
        views(parts@).flatten().len() == cursor,
    ensures
        r == (if parts@.len() == 0 {
            0
        } else {
            cursor - parts@.last()@.len()
        }),
        r <= cursor,
        parts@.len() > 0 ==> views(parts@).flatten().subrange(r as int, cursor as int)
            == parts@.last()@,
{
    let ghost ps = views(parts@);
    if parts.len() == 0 {
        0
    } else {
        let last = parts.len() - 1;
        let n = parts[last].as_str().unicode_len();
        proof {
            assert(ps.drop_last().push(ps.last()) =~= ps);
            ps.drop_last().lemma_flatten_push(ps.last());
            assert(ps.last() == parts@.last()@);
            assert(ps.flatten().subrange(cursor - n, cursor as int) =~= ps.last());
        }
        cursor - n
    }
}

/// Where a cursor at `cursor` steps forward to over one grapheme, given
/// `parts`, the clusters of the text after it: past the first part, or
/// where it is when there is none. The characters stepped over are that
/// first part.
pub fn step_forward(parts: &[String], cursor: usize) -> (r: usize)
    requires
        cursor + views(parts@).flatten().len() <= usize::MAX,
    ensures
        r == (if parts@.len() == 0 {
            cursor as int
        } else {
            cursor + parts@[0]@.len()
        }),
        cursor <= r <= cursor + views(parts@).flatten().len(),
        parts@.len() > 0 ==> views(parts@).flatten().take(r - cursor) == parts@[0]@,
{
    let ghost ps = views(parts@);
    if parts.len() == 0 {
        cursor
    } else {
        let n = parts[0].as_str().unicode_len();
        proof {
            assert(ps[0] == parts@[0]@);
            assert(ps.flatten() == ps[0] + ps.drop_first().flatten());
            assert(ps.flatten().take(n as int) =~= ps[0]);
        }
        cursor + n
    }
}

/// Character index one grapheme before `cursor`; the characters
/// stepped over are the last cluster of the text before it.
fn prev_boundary_exec(text: &str, cursor: usize) -> (r: usize)
    requires
        cursor <= text@.len(),
    ensures
        r == prev_boundary(text@, cursor as int),
        r <= cursor,
        cursor > 0 ==> r < cursor,
        cursor > 0 ==> grapheme_clusters(text@.take(cursor as int)).len() > 0 && text@.subrange(
            r as int,
            cursor as int,
        ) == grapheme_clusters(text@.take(cursor as int)).last(),
{
    let before = text.substring_char(0, cursor);
    assert(before@ == text@.take(cursor as int));
    let gs = graphemes(before);
    let r = step_back(gs.as_slice(), cursor);
    proof {
        let ps = views(gs@);
        if gs@.len() == 0 {
            assert(ps =~= Seq::<Seq<char>>::empty());
            assert(ps.flatten() =~= Seq::<char>::empty());
        } else {
            assert(ps.last() == gs@.last()@);
            assert(gs@.last()@.len() > 0);
            assert(text@.subrange(r as int, cursor as int) =~= before@.subrange(
                r as int,
                cursor as int,
            ));
        }
    }
    r
}

/// Character index one grapheme after `cursor`; the characters stepped
/// over are the first cluster of the text after it.
fn next_boundary_exec(text: &str, cursor: usize) -> (r: usize)
    requires
        cursor <= text@.len(),
    ensures
        r == next_boundary(text@, cursor as int),
        cursor <= r <= text@.len(),
        cursor < text@.len() ==> cursor < r,
        cursor < text@.len() ==> grapheme_clusters(text@.skip(cursor as int)).len() > 0
            && text@.subrange(cursor as int, r as int) == grapheme_clusters(
            text@.skip(cursor as int),
        )[0],
{
    let len = text.unicode_len();
    let after = text.substring_char(cursor, len);
    assert(after@ == text@.skip(cursor as int));
    let gs = graphemes(after);
    let r = step_forward(gs.as_slice(), cursor);
    proof {
        let ps = views(gs@);
        if gs@.len() == 0 {
            assert(ps =~= Seq::<Seq<char>>::empty());
            assert(ps.flatten() =~= Seq::<char>::empty());
            assert(after@.len() == 0);
        } else {
            assert(ps[0] == gs@[0]@);
            assert(gs@[0]@.len() > 0);
            assert(text@.subrange(cursor as int, r as int) =~= after@.take(r - cursor));
        }
    }
    r
}

/// Single-line editing buffer with a grapheme-aware cursor.
#[derive(Debug)]
pub struct LineInput {
    text: String,
    /// Character index of the cursor.
    cursor: usize,
}

/// The value of an editing buffer: its text and the cursor's character
/// index.
pub struct LineInputView {
    pub text: Seq<char>,
    pub cursor: nat,
}

impl View for LineInput {
    type V = LineInputView;

    closed spec fn view(&self) -> LineInputView {
        LineInputView { text: self.text@, cursor: self.cursor as nat }
    }
}

impl LineInput {
    /// The cursor lies within the text.
    #[verifier::type_invariant]
    pub closed spec fn wf(self) -> bool {
        self.cursor <= self.text@.len()
    }

    /// A buffer holding `text`, with the cursor at its end.
    pub fn new(text: String) -> (r: Self)
        ensures
            r@.cursor <= r@.text.len(),
            r@.text == text@,
            r@.cursor == text@.len(),
    {
        let cursor = text.as_str().unicode_len();
        Self { text, cursor }
    }

    /// The whole text.
    pub fn text(&self) -> (r: &str)
        ensures
            self@.cursor <= self@.text.len(),
            r@ == self@.text,
    {
        proof {
            use_type_invariant(self);
        }
        self.text.as_str()
    }

    /// Text before the cursor.
    pub fn before(&self) -> (r: &str)
        ensures
            self@.cursor <= self@.text.len(),
            r@ == self@.text.take(self@.cursor as int),
    {
        proof {
            use_type_invariant(self);
        }
        self.text.as_str().substring_char(0, self.cursor)
    }

    /// Text after the cursor.
    pub fn after(&self) -> (r: &str)
        ensures
            self@.cursor <= self@.text.len(),
            r@ == self@.text.skip(self@.cursor as int),
    {
        proof {
            use_type_invariant(self);
        }
        let len = self.text.as_str().unicode_len();
        self.text.as_str().substring_char(self.cursor, len)
    }

    /// Inserts `s` at the cursor and moves the cursor past it, onto the
    /// first grapheme boundary of the new text at or after the end of
    /// `s`: where the inserted text joins the cluster after it (a
    /// combining mark typed in front of its base, say), to the end of
    /// that cluster.
    pub fn insert(&mut self, s: &str)
        ensures
            final(self)@.cursor <= final(self)@.text.len(),
            final(self)@.text == old(self)@.text.take(old(self)@.cursor as int) + s@ + old(
                self,
            )@.text.skip(old(self)@.cursor as int),
            final(self)@.cursor == snap_boundary(
                final(self)@.text,
                (old(self)@.cursor + s@.len()) as int,
            ),
            is_boundary(final(self)@.text, final(self)@.cursor as int),
            old(self)@.cursor + s@.len() <= final(self)@.cursor,
    {
        proof {
            use_type_invariant(&*self);
        }
        let head = String::from_str(self.before()).concat(s);
        let target = head.as_str().unicode_len();
        let text = head.concat(self.after());
        let len = text.as_str().unicode_len();
        let gs = graphemes(text.as_str());
        let cursor = boundary_at_or_after(gs.as_slice(), target);
        proof {
            let ps = views(gs@);
            let j = lemma_boundary_from(ps, target as int, 0);
            lemma_prefix_le(ps, j);
            if j == ps.len() {
                assert(ps.take(j) =~= ps);
            }
            assert(0 <= j <= grapheme_clusters(text@).len() && prefix_len(grapheme_clusters(text@), j)
                == cursor);
        }
        *self = LineInput { text, cursor };
    }

    /// Removes the grapheme before the cursor: the last cluster of the
    /// text in front of it.
    pub fn backspace(&mut self)
        ensures
            final(self)@.cursor <= final(self)@.text.len(),
            final(self)@.text == old(self)@.text.take(
                prev_boundary(old(self)@.text, old(self)@.cursor as int),
            ) + old(self)@.text.skip(old(self)@.cursor as int),
            final(self)@.cursor == prev_boundary(old(self)@.text, old(self)@.cursor as int),
            final(self)@.cursor <= old(self)@.cursor,
            old(self)@.cursor > 0 ==> final(self)@.cursor < old(self)@.cursor,
            old(self)@.cursor > 0 ==> old(self)@.text.subrange(
                final(self)@.cursor as int,
                old(self)@.cursor as int,
            ) == grapheme_clusters(old(self)@.text.take(old(self)@.cursor as int)).last(),
            old(self)@.cursor == 0 ==> final(self)@ == old(self)@,
    {
        proof {
            use_type_invariant(&*self);
        }
        let start = prev_boundary_exec(self.text.as_str(), self.cursor);
        let head = self.text.as_str().substring_char(0, start);
        let text = String::from_str(head).concat(self.after());
        let ghost old_text = self@.text;
        let ghost old_cursor = self@.cursor;
        *self = LineInput { text, cursor: start };
        assert(old_cursor == 0 ==> self@.text =~= old_text);
    }

    /// Removes the grapheme after the cursor: the first cluster of the
    /// text behind it.
    pub fn delete(&mut self)
        ensures
            final(self)@.cursor <= final(self)@.text.len(),
            final(self)@.text == old(self)@.text.take(old(self)@.cursor as int) + old(
                self,
            )@.text.skip(next_boundary(old(self)@.text, old(self)@.cursor as int)),
            final(self)@.cursor == old(self)@.cursor,
            old(self)@.cursor < old(self)@.text.len() ==> final(self)@.text.len() < old(
                self,
            )@.text.len(),
            old(self)@.cursor < old(self)@.text.len() ==> old(self)@.text.subrange(
                old(self)@.cursor as int,
                next_boundary(old(self)@.text, old(self)@.cursor as int),
            ) == grapheme_clusters(old(self)@.text.skip(old(self)@.cursor as int))[0],
            old(self)@.cursor == old(self)@.text.len() ==> final(self)@ == old(self)@,
    {
        proof {
            use_type_invariant(&*self);
        }
        let end = next_boundary_exec(self.text.as_str(), self.cursor);
        let len = self.text.as_str().unicode_len();
        let tail = self.text.as_str().substring_char(end, len);
        let text = String::from_str(self.before()).concat(tail);
        let cursor = self.cursor;
        let ghost old_text = self@.text;
        *self = LineInput { text, cursor };
        assert(end == cursor ==> self@.text =~= old_text);
    }

    /// Moves the cursor back over one grapheme.
    pub fn move_left(&mut self)
        ensures
            final(self)@.cursor <= final(self)@.text.len(),
            final(self)@.text == old(self)@.text,
            final(self)@.cursor == prev_boundary(old(self)@.text, old(self)@.cursor as int),
            final(self)@.cursor <= old(self)@.cursor,
            old(self)@.cursor > 0 ==> final(self)@.cursor < old(self)@.cursor,
            old(self)@.cursor > 0 ==> old(self)@.text.subrange(
                final(self)@.cursor as int,
                old(self)@.cursor as int,
            ) == grapheme_clusters(old(self)@.text.take(old(self)@.cursor as int)).last(),
    {
        proof {
            use_type_invariant(&*self);
        }
        let cursor = prev_boundary_exec(self.text.as_str(), self.cursor);
        self.cursor = cursor;
    }

    /// Moves the cursor forward over one grapheme.
    pub fn move_right(&mut self)
        ensures
            final(self)@.cursor <= final(self)@.text.len(),
            final(self)@.text == old(self)@.text,
            final(self)@.cursor == next_boundary(old(self)@.text, old(self)@.cursor as int),
            old(self)@.cursor <= final(self)@.cursor <= old(self)@.text.len(),
            old(self)@.cursor < old(self)@.text.len() ==> old(self)@.cursor < final(self)@.cursor,
            old(self)@.cursor < old(self)@.text.len() ==> old(self)@.text.subrange(
                old(self)@.cursor as int,
                final(self)@.cursor as int,
            ) == grapheme_clusters(old(self)@.text.skip(old(self)@.cursor as int))[0],
    {
        proof {
            use_type_invariant(&*self);
        }
        let cursor = next_boundary_exec(self.text.as_str(), self.cursor);
        self.cursor = cursor;
    }

    /// Moves the cursor to the start.
    pub fn move_home(&mut self)
        ensures
            final(self)@.cursor <= final(self)@.text.len(),
            final(self)@.text == old(self)@.text,
            final(self)@.cursor == 0,
    {
        self.cursor = 0;
    }

    /// Moves the cursor to the end.
    pub fn move_end(&mut self)
        ensures
            final(self)@.cursor <= final(self)@.text.len(),
            final(self)@.text == old(self)@.text,
            final(self)@.cursor == old(self)@.text.len(),
    {
        self.cursor = self.text.as_str().unicode_len();
    }
}

impl Default for LineInput {
    /// An empty buffer.
    fn default() -> (r: Self)
        ensures
            r@.cursor <= r@.text.len(),
            r@.text == Seq::<char>::empty(),
            r@.cursor == 0,
    {
        LineInput::new(String::new())
    }
}


/// Descriptions and messages wrap at roughly this many columns.
pub const WRAP_COLS: usize = 32;

/// What `textwrap::fill` makes of `text` at `width` columns.
pub uninterp spec fn textwrap_fill(text: Seq<char>, width: usize) -> Seq<char>;

/// `s` without its trailing spaces.
pub open spec fn trim_trailing_spaces(s: Seq<char>) -> Seq<char>
    decreases s.len(),
{
    if s.len() > 0 && s.last() == ' ' {
        trim_trailing_spaces(s.drop_last())
    } else {
        s
    }
}

/// Calls `textwrap::fill(text, width)`. Its source returns a text
/// shorter than `width` bytes and free of line breaks unchanged but
/// for trailing spaces; how longer texts wrap is not stated: that is
/// `textwrap_fill`.
#[verifier::external_body]
fn fill(text: &str, width: usize) -> (r: String)
    ensures
        r@ == textwrap_fill(text@, width),
        text.spec_bytes().len() < width && !text@.contains('\n') ==> r@ == trim_trailing_spaces(
            text@,
        ),
{
    textwrap::fill(text, width)
}

/// The wrapped lines of each line of a text, in order.
pub open spec fn wrapped_lines(lines: Seq<Seq<char>>) -> Seq<Seq<char>>
    decreases lines.len(),
{
    if lines.len() == 0 {
        Seq::empty()
    } else {
        wrapped_lines(lines.drop_last()) + split_lines(textwrap_fill(lines.last(), WRAP_COLS))
    }
}

/// A description split at its line breaks, each line wrapped at
/// `WRAP_COLS` columns.
pub fn wrap_description(text: &str) -> (r: Vec<String>)
    ensures
        views(r@) == wrapped_lines(split_lines(text@)),
{
    let lines = split_at_newlines(text);
    let ghost ls = views(lines@);
    let mut r: Vec<String> = Vec::new();
    let mut i: usize = 0;
    while i < lines.len()
        invariant
            i <= lines@.len(),
            ls == views(lines@),
            views(r@) == wrapped_lines(ls.take(i as int)),
        decreases lines@.len() - i,
    {
        let filled = fill(lines[i].as_str(), WRAP_COLS);
        let mut pieces = split_at_newlines(filled.as_str());
        let ghost before = views(r@);
        let ghost more = views(pieces@);
        r.append(&mut pieces);
        proof {
            assert(views(r@) =~= before + more);
            assert(ls.take(i + 1).drop_last() =~= ls.take(i as int));
            assert(ls.take(i + 1).last() == lines@[i as int]@);
        }
        i = i + 1;
    }
    assert(ls.take(lines@.len() as int) =~= ls);
    r
}

/// Hit by a dialog's mouse event.
#[derive(Clone, Copy, Debug, PartialEq, Eq)]
pub enum DialogHit {
    /// One of the buttons.
    Button(DialogButton),
    /// The card, outside the buttons.
    Card,
    /// Some other interface item, by an id of the caller's choosing.
    Other(u64),
}

/// The kinds of mouse event a dialog tells apart.
#[derive(Clone, Copy, Debug, PartialEq, Eq)]
pub enum DialogMouse {
    /// Left button pressed.
    PressLeft,
    /// Pointer moved.
    Move,
    /// Anything else: releases, wheel, other buttons.
    Other,
}

/// The keys a dialog tells apart.
#[derive(Clone, Copy, Debug, PartialEq, Eq)]
pub enum DialogKey {
    Char(char),
    Escape,
    Enter,
    Backspace,
    Delete,
    LeftArrow,
    RightArrow,
    Home,
    End,
    /// Any other key.
    Other,
}

/// The modifier combinations a dialog tells apart.
#[derive(Clone, Copy, Debug, PartialEq, Eq)]
pub enum DialogMods {
    /// No modifier.
    NoMods,
    /// Shift alone.
    Shift,
    /// Control alone.
    Ctrl,
    /// Any other combination.
    Other,
}

/// What the window should do after a dialog handled an event.
#[derive(Clone, Copy, Debug, PartialEq, Eq)]
pub enum DialogAction {
    /// Accept: finish the dialog with `true`.
    Submit,
    /// Dismiss: finish the dialog with `false`.
    Cancel,
    /// Paste the clipboard into the input.
    Paste,
    /// Repaint: the input or the hover state changed.
    Redraw,
    /// Nothing, the event is swallowed.
    Nothing,
}

/// What a finished dialog hands its completion.
#[derive(Debug, PartialEq, Eq)]
pub enum DialogOutcome {
    /// A prompt's text on accept, `None` on cancel.
    Prompt(Option<String>),
    /// A confirmation's answer.
    Confirm(bool),
}

/// One button of a dialog card.
#[derive(Clone, Debug, PartialEq, Eq)]
pub struct CardButton {
    pub which: DialogButton,
    pub label: String,
    /// Painted in the active colors.
    pub primary: bool,
}

/// What a dialog card shows, top to bottom.
#[derive(Clone, Debug, PartialEq, Eq)]
pub struct DialogCard {
    pub title: String,
    pub description: Vec<String>,
    /// A prompt's input field: the text before and after the caret.
    pub field: Option<(String, String)>,
    /// The buttons, right-aligned, left to right.
    pub buttons: Vec<CardButton>,
}

/// A prompt with its input, or a confirmation.
#[derive(Debug)]
pub enum DialogKind {
    Prompt(LineInput),
    Confirm,
}

/// The state of a sidebar dialog: what it shows, the prompt's input,
/// whether its completion ran, and the last item under the mouse.
#[derive(Debug)]
pub struct SidebarDialog {
    kind: DialogKind,
    title: String,
    description: Vec<String>,
    confirm_label: String,
    completed: bool,
    last_mouse_hit: Option<DialogHit>,
}

/// The value of a dialog's kind.
pub enum DialogKindView {
    Prompt(LineInputView),
    Confirm,
}

/// The value of a dialog.
pub struct SidebarDialogView {
    pub kind: DialogKindView,
    pub title: Seq<char>,
    pub description: Seq<Seq<char>>,
    pub confirm_label: Seq<char>,
    pub completed: bool,
    pub last_mouse_hit: Option<DialogHit>,
}

impl View for SidebarDialog {
    type V = SidebarDialogView;

    closed spec fn view(&self) -> SidebarDialogView {
        SidebarDialogView {
            kind: match self.kind {
                DialogKind::Prompt(input) => DialogKindView::Prompt(input@),
                DialogKind::Confirm => DialogKindView::Confirm,
            },
            title: self.title@,
            description: views(self.description@),
            confirm_label: self.confirm_label@,
            completed: self.completed,
            last_mouse_hit: self.last_mouse_hit,
        }
    }
}

/// The action a key press stands for in a dialog of kind `kind`.
pub open spec fn key_action(kind: DialogKindView, key: DialogKey, mods: DialogMods) -> DialogAction {
    match kind {
        DialogKindView::Prompt(_) => match (key, mods) {
            (DialogKey::Escape, DialogMods::NoMods) => DialogAction::Cancel,
            (DialogKey::Enter, DialogMods::NoMods) => DialogAction::Submit,
            (DialogKey::Backspace, DialogMods::NoMods) => DialogAction::Redraw,
            (DialogKey::Delete, DialogMods::NoMods) => DialogAction::Redraw,
            (DialogKey::LeftArrow, DialogMods::NoMods) => DialogAction::Redraw,
            (DialogKey::RightArrow, DialogMods::NoMods) => DialogAction::Redraw,
            (DialogKey::Home, DialogMods::NoMods) => DialogAction::Redraw,
            (DialogKey::End, DialogMods::NoMods) => DialogAction::Redraw,
            (DialogKey::Char('v'), DialogMods::Ctrl) => DialogAction::Paste,
            (DialogKey::Char(_), DialogMods::NoMods) => DialogAction::Redraw,
            (DialogKey::Char(_), DialogMods::Shift) => DialogAction::Redraw,
            _ => DialogAction::Nothing,
        },
        DialogKindView::Confirm => match (key, mods) {
            (DialogKey::Escape, DialogMods::NoMods) => DialogAction::Cancel,
            (DialogKey::Char('n'), DialogMods::NoMods) => DialogAction::Cancel,
            (DialogKey::Char('N'), DialogMods::NoMods) => DialogAction::Cancel,
            (DialogKey::Enter, DialogMods::NoMods) => DialogAction::Submit,
            (DialogKey::Char('y'), DialogMods::NoMods) => DialogAction::Submit,
            (DialogKey::Char('Y'), DialogMods::NoMods) => DialogAction::Submit,
            _ => DialogAction::Nothing,
        },
    }
}

/// What a key press does to a prompt's input.
/// An editing buffer after inserting `s` at its cursor: the cursor lands
/// on the first grapheme boundary of the new text at or after the end
/// of `s`.
pub open spec fn inserted(input: LineInputView, s: Seq<char>) -> LineInputView {
    let t = input.text.take(input.cursor as int) + s + input.text.skip(input.cursor as int);
    LineInputView { text: t, cursor: snap_boundary(t, (input.cursor + s.len()) as int) as nat }
}

pub open spec fn key_edit(input: LineInputView, key: DialogKey, mods: DialogMods) -> LineInputView {
    let t = input.text;
    let c = input.cursor as int;
    match (key, mods) {
        (DialogKey::Backspace, DialogMods::NoMods) => {
            let p = prev_boundary(t, c);
            LineInputView { text: t.take(p) + t.skip(c), cursor: p as nat }
        },
        (DialogKey::Delete, DialogMods::NoMods) => LineInputView {
            text: t.take(c) + t.skip(next_boundary(t, c)),
            cursor: input.cursor,
        },
        (DialogKey::LeftArrow, DialogMods::NoMods) => LineInputView {
            text: t,
            cursor: prev_boundary(t, c) as nat,
        },
        (DialogKey::RightArrow, DialogMods::NoMods) => LineInputView {
            text: t,
            cursor: next_boundary(t, c) as nat,
        },
        (DialogKey::Home, DialogMods::NoMods) => LineInputView { text: t, cursor: 0 },
        (DialogKey::End, DialogMods::NoMods) => LineInputView { text: t, cursor: t.len() },
        (DialogKey::Char('v'), DialogMods::Ctrl) => input,
        (DialogKey::Char(ch), DialogMods::NoMods) => inserted(input, seq![ch]),
        (DialogKey::Char(ch), DialogMods::Shift) => inserted(input, seq![ch]),
        _ => input,
    }
}

/// What a mouse event over `hit` means for a dialog whose last hovered
/// item was `last`: a press on Confirm accepts, on Cancel or outside the
/// card dismisses, on the card does nothing; a move repaints when the
/// hovered item changed.
pub open spec fn mouse_action(kind: DialogMouse, hit: Option<DialogHit>, last: Option<DialogHit>) -> DialogAction {
    match kind {
        DialogMouse::PressLeft => match hit {
            Some(DialogHit::Button(DialogButton::Confirm)) => DialogAction::Submit,
            Some(DialogHit::Button(DialogButton::Cancel)) => DialogAction::Cancel,
            Some(DialogHit::Card) => DialogAction::Nothing,
            _ => DialogAction::Cancel,
        },
        DialogMouse::Move => if hit != last {
            DialogAction::Redraw
        } else {
            DialogAction::Nothing
        },
        DialogMouse::Other => DialogAction::Nothing,
    }
}

/// `o` is what finishing a dialog of kind `kind` with `accepted` hands
/// its completion: a prompt's text on accept and `None` on cancel, or a
/// confirmation's answer.
pub open spec fn outcome_of(kind: DialogKindView, accepted: bool, o: DialogOutcome) -> bool {
    match (kind, o) {
        (DialogKindView::Prompt(input), DialogOutcome::Prompt(v)) => crate::text::opt_view(v) == (
        if accepted {
            Some(input.text)
        } else {
            None
        }),
        (DialogKindView::Confirm, DialogOutcome::Confirm(b)) => b == accepted,
        _ => false,
    }
}

/// A prompt's input after pasting `clip` at its cursor.
pub open spec fn pasted(kind: DialogKindView, clip: Seq<char>) -> DialogKindView {
    match kind {
        DialogKindView::Prompt(input) => DialogKindView::Prompt(
            inserted(input, flatten_newlines(clip)),
        ),
        DialogKindView::Confirm => DialogKindView::Confirm,
    }
}

/// The kind after a key press.
pub open spec fn key_kind(kind: DialogKindView, key: DialogKey, mods: DialogMods) -> DialogKindView {
    match kind {
        DialogKindView::Prompt(input) => DialogKindView::Prompt(key_edit(input, key, mods)),
        DialogKindView::Confirm => DialogKindView::Confirm,
    }
}

/// Whether two hits are the same item.
fn same_hit(a: Option<DialogHit>, b: Option<DialogHit>) -> (r: bool)
    ensures
        r == (a == b),
{
    match (a, b) {
        (None, None) => true,
        (Some(x), Some(y)) => match (x, y) {
            (DialogHit::Button(p), DialogHit::Button(q)) => match (p, q) {
                (DialogButton::Cancel, DialogButton::Cancel) => true,
                (DialogButton::Confirm, DialogButton::Confirm) => true,
                _ => false,
            },
            (DialogHit::Card, DialogHit::Card) => true,
            (DialogHit::Other(i), DialogHit::Other(j)) => i == j,
            _ => false,
        },
        _ => false,
    }
}


impl SidebarDialog {
    /// A single-line input dialog holding `initial_value` (empty when
    /// none), with the cursor at its end.
    pub fn prompt(
        title: String,
        description: String,
        initial_value: Option<String>,
        confirm_label: String,
    ) -> (r: Self)
        ensures
            r@.kind == DialogKindView::Prompt(
                LineInputView {
                    text: crate::text::opt_view(initial_value).unwrap_or(Seq::empty()),
                    cursor: crate::text::opt_view(initial_value).unwrap_or(Seq::empty()).len(),
                },
            ),
            r@.title == title@,
            r@.description == wrapped_lines(split_lines(description@)),
            r@.confirm_label == confirm_label@,
            !r@.completed,
            r@.last_mouse_hit is None,
    {
        let text = match initial_value {
            Some(t) => t,
            None => String::new(),
        };
        SidebarDialog {
            kind: DialogKind::Prompt(LineInput::new(text)),
            title,
            description: wrap_description(description.as_str()),
            confirm_label,
            completed: false,
            last_mouse_hit: None,
        }
    }

    /// A yes/no confirmation.
    pub fn confirm(title: String, message: String, confirm_label: String) -> (r: Self)
        ensures
            r@.kind == DialogKindView::Confirm,
            r@.title == title@,
            r@.description == wrapped_lines(split_lines(message@)),
            r@.confirm_label == confirm_label@,
            !r@.completed,
            r@.last_mouse_hit is None,
    {
        SidebarDialog {
            kind: DialogKind::Confirm,
            title,
            description: wrap_description(message.as_str()),
            confirm_label,
            completed: false,
            last_mouse_hit: None,
        }
    }

    /// The title.
    pub fn title(&self) -> (r: &str)
        ensures
            r@ == self@.title,
    {
        self.title.as_str()
    }

    /// The wrapped description lines.
    pub fn description(&self) -> (r: &[String])
        ensures
            views(r@) == self@.description,
    {
        self.description.as_slice()
    }

    /// The label of the confirm button.
    pub fn confirm_label(&self) -> (r: &str)
        ensures
            r@ == self@.confirm_label,
    {
        self.confirm_label.as_str()
    }

    /// A prompt's input; none for a confirmation.
    pub fn input(&self) -> (r: Option<&LineInput>)
        ensures
            match self@.kind {
                DialogKindView::Prompt(i) => (r matches Some(x) && x@ == i),
                DialogKindView::Confirm => r is None,
            },
    {
        match &self.kind {
            DialogKind::Prompt(input) => Some(input),
            DialogKind::Confirm => None,
        }
    }

    /// What the dialog's card shows: the title, the wrapped
    /// description, a prompt's input split at the caret, and the two
    /// buttons, left to right: "Cancel", then the primary confirm
    /// button.
    pub fn card(&self) -> (r: DialogCard)
        ensures
            r.title@ == self@.title,
            views(r.description@) == self@.description,
            match self@.kind {
                DialogKindView::Prompt(i) => (r.field matches Some(f) && f.0@ == i.text.take(
                    i.cursor as int,
                ) && f.1@ == i.text.skip(i.cursor as int)),
                DialogKindView::Confirm => r.field is None,
            },
            r.buttons@.len() == 2,
            r.buttons@[0].which == DialogButton::Cancel,
            r.buttons@[0].label@ == "Cancel"@,
            !r.buttons@[0].primary,
            r.buttons@[1].which == DialogButton::Confirm,
            r.buttons@[1].label@ == self@.confirm_label,
            r.buttons@[1].primary,
    {
        let field = match &self.kind {
            DialogKind::Prompt(input) => Some(
                (String::from_str(input.before()), String::from_str(input.after())),
            ),
            DialogKind::Confirm => None,
        };
        let mut buttons: Vec<CardButton> = Vec::new();
        buttons.push(
            CardButton {
                which: DialogButton::Cancel,
                label: String::from_str("Cancel"),
                primary: false,
            },
        );
        buttons.push(
            CardButton {
                which: DialogButton::Confirm,
                label: self.confirm_label.clone(),
                primary: true,
            },
        );
        DialogCard {
            title: self.title.clone(),
            description: clone_strings(self.description.as_slice()),
            field,
            buttons,
        }
    }

    /// Handles a key press: edits a prompt's input or says what the
    /// window should do. The dialog is modal: every key is swallowed.
    pub fn key_down(&mut self, key: DialogKey, mods: DialogMods) -> (r: DialogAction)
        ensures
            r == key_action(old(self)@.kind, key, mods),
            final(self)@.kind == key_kind(old(self)@.kind, key, mods),
            final(self)@.title == old(self)@.title,
            final(self)@.description == old(self)@.description,
            final(self)@.confirm_label == old(self)@.confirm_label,
            final(self)@.completed == old(self)@.completed,
            final(self)@.last_mouse_hit == old(self)@.last_mouse_hit,
    {
        match &mut self.kind {
            DialogKind::Prompt(input) => match (key, mods) {
                (DialogKey::Escape, DialogMods::NoMods) => DialogAction::Cancel,
                (DialogKey::Enter, DialogMods::NoMods) => DialogAction::Submit,
                (DialogKey::Backspace, DialogMods::NoMods) => {
                    input.backspace();
                    DialogAction::Redraw
                },
                (DialogKey::Delete, DialogMods::NoMods) => {
                    input.delete();
                    DialogAction::Redraw
                },
                (DialogKey::LeftArrow, DialogMods::NoMods) => {
                    input.move_left();
                    DialogAction::Redraw
                },
                (DialogKey::RightArrow, DialogMods::NoMods) => {
                    input.move_right();
                    DialogAction::Redraw
                },
                (DialogKey::Home, DialogMods::NoMods) => {
                    input.move_home();
                    DialogAction::Redraw
                },
                (DialogKey::End, DialogMods::NoMods) => {
                    input.move_end();
                    DialogAction::Redraw
                },
                (DialogKey::Char('v'), DialogMods::Ctrl) => DialogAction::Paste,
                (DialogKey::Char(c), DialogMods::NoMods) | (DialogKey::Char(c), DialogMods::Shift) => {
                    let s = char_string(c);
                    input.insert(s.as_str());
                    DialogAction::Redraw
                },
                _ => DialogAction::Nothing,
            },
            DialogKind::Confirm => match (key, mods) {
                (DialogKey::Escape, DialogMods::NoMods) => DialogAction::Cancel,
                (DialogKey::Char('n'), DialogMods::NoMods) => DialogAction::Cancel,
                (DialogKey::Char('N'), DialogMods::NoMods) => DialogAction::Cancel,
                (DialogKey::Enter, DialogMods::NoMods) => DialogAction::Submit,
                (DialogKey::Char('y'), DialogMods::NoMods) => DialogAction::Submit,
                (DialogKey::Char('Y'), DialogMods::NoMods) => DialogAction::Submit,
                _ => DialogAction::Nothing,
            },
        }
    }

    /// Handles a mouse event over `hit` (none when nothing is under the
    /// pointer), remembering the hovered item on moves.
    pub fn mouse_event(&mut self, kind: DialogMouse, hit: Option<DialogHit>) -> (r: DialogAction)
        ensures
            r == mouse_action(kind, hit, old(self)@.last_mouse_hit),
            final(self)@.last_mouse_hit == (if kind is Move {
                hit
            } else {
                old(self)@.last_mouse_hit
            }),
            final(self)@.kind == old(self)@.kind,
            final(self)@.title == old(self)@.title,
            final(self)@.description == old(self)@.description,
            final(self)@.confirm_label == old(self)@.confirm_label,
            final(self)@.completed == old(self)@.completed,
    {
        match kind {
            DialogMouse::PressLeft => match hit {
                Some(DialogHit::Button(DialogButton::Confirm)) => DialogAction::Submit,
                Some(DialogHit::Button(DialogButton::Cancel)) => DialogAction::Cancel,
                Some(DialogHit::Card) => DialogAction::Nothing,
                _ => DialogAction::Cancel,
            },
            DialogMouse::Move => {
                if !same_hit(self.last_mouse_hit, hit) {
                    self.last_mouse_hit = hit;
                    DialogAction::Redraw
                } else {
                    DialogAction::Nothing
                }
            },
            DialogMouse::Other => DialogAction::Nothing,
        }
    }

    /// Finishes the dialog: the first call hands back what its
    /// completion receives, later calls hand back nothing, so the
    /// completion runs exactly once.
    pub fn finish(&mut self, accepted: bool) -> (r: Option<DialogOutcome>)
        ensures
            old(self)@.completed ==> r is None,
            !old(self)@.completed ==> (r matches Some(o) && outcome_of(old(self)@.kind, accepted, o)),
            final(self)@.completed,
            final(self)@.kind == old(self)@.kind,
            final(self)@.title == old(self)@.title,
            final(self)@.description == old(self)@.description,
            final(self)@.confirm_label == old(self)@.confirm_label,
            final(self)@.last_mouse_hit == old(self)@.last_mouse_hit,
    {
        if self.completed {
            return None;
        }
        self.completed = true;
        match &self.kind {
            DialogKind::Prompt(input) => Some(
                DialogOutcome::Prompt(
                    if accepted {
                        Some(String::from_str(input.text()))
                    } else {
                        None
                    },
                ),
            ),
            DialogKind::Confirm => Some(DialogOutcome::Confirm(accepted)),
        }
    }

    /// Inserts clipboard text, line breaks turned into spaces, at a
    /// prompt's cursor; a confirmation ignores it.
    pub fn insert_pasted(&mut self, clip: &str)
        ensures
            final(self)@.kind == pasted(old(self)@.kind, clip@),
            final(self)@.title == old(self)@.title,
            final(self)@.description == old(self)@.description,
            final(self)@.confirm_label == old(self)@.confirm_label,
            final(self)@.completed == old(self)@.completed,
            final(self)@.last_mouse_hit == old(self)@.last_mouse_hit,
    {
        match &mut self.kind {
            DialogKind::Prompt(input) => {
                let line = single_line(clip);
                input.insert(line.as_str());
            },
            DialogKind::Confirm => {},
        }
    }
}

/// What the segmenter guarantees of every text it splits: the clusters
/// are not empty and together spell the text.
pub open spec fn spelled_by_clusters(s: Seq<char>) -> bool {
    &&& grapheme_clusters(s).flatten() == s
    &&& forall|i: int|
        0 <= i < grapheme_clusters(s).len() ==> (#[trigger] grapheme_clusters(s)[i]).len() > 0
}

proof fn lemma_first_cluster(s: Seq<char>)
    requires
        spelled_by_clusters(s),
        s.len() > 0,
    ensures
        grapheme_clusters(s).len() > 0,
        0 < grapheme_clusters(s)[0].len() <= s.len(),
        s.take(grapheme_clusters(s)[0].len() as int) == grapheme_clusters(s)[0],
{
    let g = grapheme_clusters(s);
    if g.len() == 0 {
        assert(g.flatten() =~= Seq::<char>::empty());
    }
    assert(g.flatten() == g[0] + g.drop_first().flatten());
    assert(s.take(g[0].len() as int) =~= g[0]);
}

proof fn lemma_last_cluster(s: Seq<char>)
    requires
        spelled_by_clusters(s),
        s.len() > 0,
    ensures
        grapheme_clusters(s).len() > 0,
        0 < grapheme_clusters(s).last().len() <= s.len(),
        s.skip(s.len() - grapheme_clusters(s).last().len()) == grapheme_clusters(s).last(),
{
    let g = grapheme_clusters(s);
    if g.len() == 0 {
        assert(g.flatten() =~= Seq::<char>::empty());
    }
    assert(g.drop_last().push(g.last()) =~= g);
    g.drop_last().lemma_flatten_push(g.last());
    assert(g[g.len() - 1] == g.last());
    assert(s.skip(s.len() - g.last().len()) =~= g.last());
}

proof fn lemma_no_cluster(s: Seq<char>)
    requires
        spelled_by_clusters(s),
        s.len() == 0,
    ensures
        grapheme_clusters(s).len() == 0,
{
    let g = grapheme_clusters(s);
    if g.len() > 0 {
        assert(g.flatten() == g[0] + g.drop_first().flatten());
    }
}

/// How the cursor keys act on a prompt's input, given only that the
/// clusters of the text spell it: Right steps forward over exactly the
/// first cluster after the cursor and Left back over exactly the last
/// cluster before it, each staying put at its end of the text; Home and
/// End go to the start and the end. None of them changes the text.
pub proof fn lemma_prompt_cursor_keys(input: LineInputView)
    requires
        input.cursor <= input.text.len(),
    ensures
        key_kind(DialogKindView::Prompt(input), DialogKey::RightArrow, DialogMods::NoMods)
            == DialogKindView::Prompt(key_edit(input, DialogKey::RightArrow, DialogMods::NoMods)),
        key_edit(input, DialogKey::RightArrow, DialogMods::NoMods).text == input.text,
        spelled_by_clusters(input.text.skip(input.cursor as int)) && input.cursor < input.text.len()
            ==> input.cursor < key_edit(input, DialogKey::RightArrow, DialogMods::NoMods).cursor
            <= input.text.len() && input.text.subrange(
            input.cursor as int,
            key_edit(input, DialogKey::RightArrow, DialogMods::NoMods).cursor as int,
        ) == grapheme_clusters(input.text.skip(input.cursor as int))[0],
        spelled_by_clusters(input.text.skip(input.cursor as int)) && input.cursor == input.text.len()
            ==> key_edit(input, DialogKey::RightArrow, DialogMods::NoMods).cursor == input.cursor,
        key_kind(DialogKindView::Prompt(input), DialogKey::LeftArrow, DialogMods::NoMods)
            == DialogKindView::Prompt(key_edit(input, DialogKey::LeftArrow, DialogMods::NoMods)),
        key_edit(input, DialogKey::LeftArrow, DialogMods::NoMods).text == input.text,
        spelled_by_clusters(input.text.take(input.cursor as int)) && input.cursor > 0
            ==> key_edit(input, DialogKey::LeftArrow, DialogMods::NoMods).cursor < input.cursor
            && input.text.subrange(
            key_edit(input, DialogKey::LeftArrow, DialogMods::NoMods).cursor as int,
            input.cursor as int,
        ) == grapheme_clusters(input.text.take(input.cursor as int)).last(),
        spelled_by_clusters(input.text.take(input.cursor as int)) && input.cursor == 0 ==> key_edit(
            input,
            DialogKey::LeftArrow,
            DialogMods::NoMods,
        ).cursor == 0,
        key_kind(DialogKindView::Prompt(input), DialogKey::Home, DialogMods::NoMods)
            == DialogKindView::Prompt(LineInputView { text: input.text, cursor: 0 }),
        key_kind(DialogKindView::Prompt(input), DialogKey::End, DialogMods::NoMods)
            == DialogKindView::Prompt(LineInputView { text: input.text, cursor: input.text.len() }),
{
    let t = input.text;
    let c = input.cursor as int;
    if spelled_by_clusters(t.skip(c)) && c < t.len() {
        lemma_first_cluster(t.skip(c));
        assert(t.subrange(c, c + grapheme_clusters(t.skip(c))[0].len()) =~= t.skip(c).take(
            grapheme_clusters(t.skip(c))[0].len() as int,
        ));
    }
    if spelled_by_clusters(t.skip(c)) && c == t.len() {
        assert(t.skip(c).len() == 0);
        lemma_no_cluster(t.skip(c));
    }
    if spelled_by_clusters(t.take(c)) && c > 0 {
        lemma_last_cluster(t.take(c));
        let k = grapheme_clusters(t.take(c)).last().len() as int;
        assert(t.subrange(c - k, c) =~= t.take(c).skip(c - k));
    }
    if spelled_by_clusters(t.take(c)) && c == 0 {
        assert(t.take(c).len() == 0);
        lemma_no_cluster(t.take(c));
    }
}

/// How the editing keys act on a prompt's input, given only that the
/// clusters of the texts involved spell them: Backspace removes exactly
/// the last cluster before the cursor and leaves the cursor where it
/// began, Delete removes exactly the first cluster after it and keeps
/// the cursor; at the start (Backspace) or the end (Delete) nothing
/// changes. A typed character (alone or with Shift) goes in at the
/// cursor, which lands on a grapheme boundary of the new text past it.
pub proof fn lemma_prompt_edit_keys(input: LineInputView, ch: char)
    requires
        input.cursor <= input.text.len(),
    ensures
        spelled_by_clusters(input.text.take(input.cursor as int)) && input.cursor > 0 ==> {
            let r = key_edit(input, DialogKey::Backspace, DialogMods::NoMods);
            &&& r.cursor < input.cursor
            &&& r.text == input.text.take(r.cursor as int) + input.text.skip(input.cursor as int)
            &&& input.text.subrange(r.cursor as int, input.cursor as int) == grapheme_clusters(
                input.text.take(input.cursor as int),
            ).last()
        },
        spelled_by_clusters(input.text.take(input.cursor as int)) && input.cursor == 0 ==> key_edit(
            input,
            DialogKey::Backspace,
            DialogMods::NoMods,
        ) == input,
        spelled_by_clusters(input.text.skip(input.cursor as int)) && input.cursor
            < input.text.len() ==> {
            let r = key_edit(input, DialogKey::Delete, DialogMods::NoMods);
            let k = grapheme_clusters(input.text.skip(input.cursor as int))[0].len();
            &&& r.cursor == input.cursor
            &&& 0 < k
            &&& input.cursor + k <= input.text.len()
            &&& r.text == input.text.take(input.cursor as int) + input.text.skip((input.cursor + k) as int)
            &&& input.text.subrange(input.cursor as int, (input.cursor + k) as int) == grapheme_clusters(
                input.text.skip(input.cursor as int),
            )[0]
        },
        spelled_by_clusters(input.text.skip(input.cursor as int)) && input.cursor
            == input.text.len() ==> key_edit(input, DialogKey::Delete, DialogMods::NoMods) == input,
        key_edit(input, DialogKey::Char(ch), DialogMods::NoMods) == key_edit(
            input,
            DialogKey::Char(ch),
            DialogMods::Shift,
        ),
        key_edit(input, DialogKey::Char(ch), DialogMods::NoMods).text == input.text.take(
            input.cursor as int,
        ) + seq![ch] + input.text.skip(input.cursor as int),
        spelled_by_clusters(key_edit(input, DialogKey::Char(ch), DialogMods::NoMods).text) ==> {
            let r = key_edit(input, DialogKey::Char(ch), DialogMods::NoMods);
            &&& is_boundary(r.text, r.cursor as int)
            &&& input.cursor + 1 <= r.cursor <= r.text.len()
        },
{
    let t = input.text;
    let c = input.cursor as int;
    if spelled_by_clusters(t.take(c)) && c > 0 {
        lemma_last_cluster(t.take(c));
        let k = grapheme_clusters(t.take(c)).last().len() as int;
        assert(t.subrange(c - k, c) =~= t.take(c).skip(c - k));
    }
    if spelled_by_clusters(t.take(c)) && c == 0 {
        assert(t.take(c).len() == 0);
        lemma_no_cluster(t.take(c));
        assert(t.take(0) + t.skip(0) =~= t);
    }
    if spelled_by_clusters(t.skip(c)) && c < t.len() {
        lemma_first_cluster(t.skip(c));
        let k = grapheme_clusters(t.skip(c))[0].len() as int;
        assert(t.subrange(c, c + k) =~= t.skip(c).take(k));
    }
    if spelled_by_clusters(t.skip(c)) && c == t.len() {
        assert(t.skip(c).len() == 0);
        lemma_no_cluster(t.skip(c));
        assert(t.take(c) + t.skip(c) =~= t);
    }
    let t2 = t.take(c) + seq![ch] + t.skip(c);
    if spelled_by_clusters(t2) {
        let g = grapheme_clusters(t2);
        let j = lemma_boundary_from(g, c + 1, 0);
        lemma_prefix_le(g, j);
        if j == g.len() {
            assert(g.take(j) =~= g);
        }
        assert(0 <= j <= grapheme_clusters(t2).len() && prefix_len(grapheme_clusters(t2), j)
            == snap_boundary(t2, c + 1));
    }
}

/// A prompt's Escape cancels and Enter submits; its editing and cursor
/// keys redraw and Ctrl-V pastes; other keys do nothing. A confirmation
/// submits on Enter, `y` or `Y` and cancels on Escape, `n` or `N`, and
/// its state never changes on a key; nor does a prompt's on Escape,
/// Enter, Ctrl-V or other keys.
pub proof fn lemma_dialog_key_actions(input: LineInputView, key: DialogKey, mods: DialogMods)
    ensures
        key_action(DialogKindView::Prompt(input), DialogKey::Escape, DialogMods::NoMods)
            == DialogAction::Cancel,
        key_action(DialogKindView::Prompt(input), DialogKey::Enter, DialogMods::NoMods)
            == DialogAction::Submit,
        key_action(DialogKindView::Prompt(input), DialogKey::Char('v'), DialogMods::Ctrl)
            == DialogAction::Paste,
        mods == DialogMods::NoMods && (key is Backspace || key is Delete || key is LeftArrow
            || key is RightArrow || key is Home || key is End || key is Char) ==> key_action(
            DialogKindView::Prompt(input),
            key,
            mods,
        ) == DialogAction::Redraw,
        key is Char ==> key_action(DialogKindView::Prompt(input), key, DialogMods::Shift)
            == DialogAction::Redraw,
        key is Other ==> key_action(DialogKindView::Prompt(input), key, mods) == DialogAction::Nothing,
        key is Escape || key is Enter || key is Other || (key == DialogKey::Char('v') && mods
            == DialogMods::Ctrl) ==> key_kind(DialogKindView::Prompt(input), key, mods)
            == DialogKindView::Prompt(input),
        key_kind(DialogKindView::Confirm, key, mods) == DialogKindView::Confirm,
        key_action(DialogKindView::Confirm, DialogKey::Escape, DialogMods::NoMods)
            == DialogAction::Cancel,
        key_action(DialogKindView::Confirm, DialogKey::Char('n'), DialogMods::NoMods)
            == DialogAction::Cancel,
        key_action(DialogKindView::Confirm, DialogKey::Char('N'), DialogMods::NoMods)
            == DialogAction::Cancel,
        key_action(DialogKindView::Confirm, DialogKey::Enter, DialogMods::NoMods)
            == DialogAction::Submit,
        key_action(DialogKindView::Confirm, DialogKey::Char('y'), DialogMods::NoMods)
            == DialogAction::Submit,
        key_action(DialogKindView::Confirm, DialogKey::Char('Y'), DialogMods::NoMods)
            == DialogAction::Submit,
{
}

/// A left press on the confirm button submits, on the cancel button or
/// outside the card cancels, on the card does nothing; a mouse move
/// redraws exactly when the item under the mouse changed.
pub proof fn lemma_dialog_mouse_actions(hit: Option<DialogHit>, last: Option<DialogHit>)
    ensures
        mouse_action(DialogMouse::PressLeft, Some(DialogHit::Button(DialogButton::Confirm)), last)
            == DialogAction::Submit,
        mouse_action(DialogMouse::PressLeft, Some(DialogHit::Button(DialogButton::Cancel)), last)
            == DialogAction::Cancel,
        mouse_action(DialogMouse::PressLeft, Some(DialogHit::Card), last) == DialogAction::Nothing,
        mouse_action(DialogMouse::PressLeft, None, last) == DialogAction::Cancel,
        hit matches Some(DialogHit::Other(_)) ==> mouse_action(DialogMouse::PressLeft, hit, last)
            == DialogAction::Cancel,
        (mouse_action(DialogMouse::Move, hit, last) == DialogAction::Redraw) == (hit != last),
        hit == last ==> mouse_action(DialogMouse::Move, hit, last) == DialogAction::Nothing,
        mouse_action(DialogMouse::Other, hit, last) == DialogAction::Nothing,
{
}

/// Finishing a prompt hands over its text on accept and nothing on
/// cancel; finishing a confirmation hands over the answer.
pub proof fn lemma_dialog_outcomes(input: LineInputView, accepted: bool, o: DialogOutcome)
    ensures
        outcome_of(DialogKindView::Prompt(input), true, o) ==> (o matches DialogOutcome::Prompt(Some(v))
            && v@ == input.text),
        outcome_of(DialogKindView::Prompt(input), false, o) ==> o == DialogOutcome::Prompt(None),
        outcome_of(DialogKindView::Confirm, accepted, o) ==> o == DialogOutcome::Confirm(accepted),
{
}

/// Pasting into a prompt puts the clipboard in at the cursor on one
/// line: as many characters as the clipboard, each line break turned
/// into a space and every other character kept; the cursor lands on a
/// grapheme boundary of the new text, past the pasted text. A
/// confirmation ignores pastes.
pub proof fn lemma_paste(input: LineInputView, clip: Seq<char>)
    requires
        input.cursor <= input.text.len(),
    ensures
        pasted(DialogKindView::Confirm, clip) == DialogKindView::Confirm,
        pasted(DialogKindView::Prompt(input), clip) is Prompt,
        ({
            let r = pasted(DialogKindView::Prompt(input), clip)->Prompt_0;
            let c = input.cursor as int;
            &&& r.text.len() == input.text.len() + clip.len()
            &&& r.text.take(c) == input.text.take(c)
            &&& r.text.skip(c + clip.len()) == input.text.skip(c)
            &&& forall|i: int|
                0 <= i < clip.len() ==> (#[trigger] r.text[c + i] == if clip[i] == '\n' || clip[i]
                    == '\r' {
                    ' '
                } else {
                    clip[i]
                })
            &&& spelled_by_clusters(r.text) ==> is_boundary(r.text, r.cursor as int) && c + clip.len()
                <= r.cursor <= r.text.len()
        }),
{
    let t = input.text;
    let c = input.cursor as int;
    let f = crate::text::flatten_newlines(clip);
    let t2 = t.take(c) + f + t.skip(c);
    assert(t2.take(c) =~= t.take(c));
    assert(t2.skip(c + clip.len()) =~= t.skip(c));
    assert forall|i: int| 0 <= i < clip.len() implies #[trigger] t2[c + i] == if clip[i] == '\n'
        || clip[i] == '\r' {
        ' '
    } else {
        clip[i]
    } by {
        assert(t2[c + i] == f[i]);
    }
    if spelled_by_clusters(t2) {
        let g = grapheme_clusters(t2);
        let j = lemma_boundary_from(g, c + clip.len(), 0);
        lemma_prefix_le(g, j);
        if j == g.len() {
            assert(g.take(j) =~= g);
        }
        assert(0 <= j <= grapheme_clusters(t2).len() && prefix_len(grapheme_clusters(t2), j)
            == snap_boundary(t2, c + clip.len()));
    }
}

} // verus!
