//! The interactive line editor: a state machine that turns key events into
//! committed lines of text.
//!
//! A [`Prompter`] owns the history of committed lines. Each editing round
//! works on a [`KeyHandler`], whose state is either a read-only view of one
//! history entry or a private draft buffer. Any mutating key first forks the
//! viewed entry into the draft (fork-on-write), so history entries are never
//! changed once committed.
//!
//! The whole machine has a mathematical model: [`Ed`] is the per-round
//! state, [`ed_step`] is the transition for one key, and [`session_outcome`]
//! folds a key sequence into the final history and the committed lines.

use crate::chars::insert_char;
use crate::chars::is_ascii_char;
use crate::chars::is_word_char;
use crate::chars::remove_char;
use crate::chars::remove_range;
use crate::chars::word_char;
use crate::chars::ascii_char;
use vstd::prelude::*;
use vstd::string::StrSliceExecFns;
use vstd::string::StringExecFns;

verus! {

/// One decoded key event, the full vocabulary the editor reacts to.
#[derive(Clone, Copy, PartialEq, Eq, Structural)]
pub enum KeyEvent {
    /// A character key; only ASCII characters are inserted, anything else is
    /// ignored.
    Char(char),
    Enter,
    Backspace,
    ArrowLeft,
    ArrowRight,
    ArrowUp,
    ArrowDown,
    WordLeft,
    WordRight,
    LineStart,
    LineEnd,
    WordBackspace,
    LineBackspace,
}

/// The mathematical state of one editing round: the cursor, the index of the
/// line in view (`history.len()` means the private draft), and the draft
/// buffer itself.
pub ghost struct Ed {
    pub cursor: int,
    pub line: int,
    pub input: Seq<char>,
}

/// The line currently shown: a history entry while one is in view, otherwise
/// the draft buffer.
pub open spec fn ed_displayed(hist: Seq<Seq<char>>, e: Ed) -> Seq<char> {
    if 0 <= e.line < hist.len() {
        hist[e.line]
    } else {
        e.input
    }
}

/// The editing-round invariant: the view index stays within
/// `[0, history.len()]` and the cursor stays within the displayed line.
pub open spec fn ed_wf(hist: Seq<Seq<char>>, e: Ed) -> bool {
    &&& 0 <= e.line <= hist.len()
    &&& 0 <= e.cursor <= ed_displayed(hist, e).len()
}

/// The state a round starts in: cursor at the left edge of an empty draft.
pub open spec fn ed_init(hlen: int) -> Ed {
    Ed { cursor: 0, line: hlen, input: Seq::empty() }
}

/// Fork-on-write: before a mutation, a history entry in view is copied into
/// the draft buffer; a draft already in view is left as it is.
pub open spec fn ed_fork(hist: Seq<Seq<char>>, e: Ed) -> Ed {
    Ed { cursor: e.cursor, line: hist.len() as int, input: ed_displayed(hist, e) }
}

/// Where a backward word scan from `i` lands: one past the first non-word
/// character found after at least one word character, or 0.
pub open spec fn word_scan_left(s: Seq<char>, i: int, in_word: bool) -> int
    decreases i + 1
{
    if i < 0 {
        0
    } else if is_word_char(s[i]) {
        word_scan_left(s, i - 1, true)
    } else if in_word {
        i + 1
    } else {
        word_scan_left(s, i - 1, false)
    }
}

/// The cursor position reached by one word-left key from `pos`.
pub open spec fn word_left_pos(s: Seq<char>, pos: int) -> int {
    word_scan_left(s, pos - 1, false)
}

/// Where a forward word scan from `i` lands: the first non-word character
/// found after at least one word character, or the end of the line.
pub open spec fn word_scan_right(s: Seq<char>, i: int, in_word: bool) -> int
    decreases s.len() - i
{
    if i >= s.len() || i < 0 {
        s.len() as int
    } else if is_word_char(s[i]) {
        word_scan_right(s, i + 1, true)
    } else if in_word {
        i
    } else {
        word_scan_right(s, i + 1, false)
    }
}

/// The cursor position reached by one word-right key from `pos`.
pub open spec fn word_right_pos(s: Seq<char>, pos: int) -> int {
    word_scan_right(s, pos, false)
}

/// A backward word scan never moves the cursor right of where it started.
pub proof fn lemma_word_scan_left_bounds(s: Seq<char>, i: int, in_word: bool)
    requires
        -1 <= i,
    ensures
        0 <= word_scan_left(s, i, in_word) <= i + 1,
    decreases i + 1,
{
    if i >= 0 && (is_word_char(s[i]) || !in_word) {
        lemma_word_scan_left_bounds(s, i - 1, is_word_char(s[i]) || in_word);
    }
}

/// A forward word scan never moves the cursor left of where it started, nor
/// past the end of the line.
pub proof fn lemma_word_scan_right_bounds(s: Seq<char>, i: int, in_word: bool)
    requires
        0 <= i <= s.len(),
    ensures
        i <= word_scan_right(s, i, in_word) <= s.len(),
    decreases s.len() - i,
{
    if i < s.len() && (is_word_char(s[i]) || !in_word) {
        lemma_word_scan_right_bounds(s, i + 1, is_word_char(s[i]) || in_word);
    }
}

/// Inserting `c`: fork, insert before the cursor, cursor moves right.
pub open spec fn ed_insert(hist: Seq<Seq<char>>, e: Ed, c: char) -> Ed {
    let f = ed_fork(hist, e);
    Ed { cursor: e.cursor + 1, line: f.line, input: f.input.insert(e.cursor, c) }
}

/// Backspace: fork, then remove the character left of the cursor, if any.
pub open spec fn ed_backspace(hist: Seq<Seq<char>>, e: Ed) -> Ed {
    let f = ed_fork(hist, e);
    if e.cursor > 0 {
        Ed { cursor: e.cursor - 1, line: f.line, input: f.input.remove(e.cursor - 1) }
    } else {
        f
    }
}

/// Recall the previous history entry; the cursor stays unless it was at the
/// end of the old line or would fall outside the new one.
pub open spec fn ed_up(hist: Seq<Seq<char>>, e: Ed) -> Ed {
    if e.line > 0 {
        let prev_len = ed_displayed(hist, e).len() as int;
        let moved = Ed { cursor: e.cursor, line: e.line - 1, input: e.input };
        let curr_len = ed_displayed(hist, moved).len() as int;
        if e.cursor == prev_len || e.cursor > curr_len {
            Ed { cursor: curr_len, line: e.line - 1, input: e.input }
        } else {
            moved
        }
    } else {
        e
    }
}

/// Recall the next history entry, or the draft buffer past the last entry;
/// cursor clamping as for [`ed_up`].
pub open spec fn ed_down(hist: Seq<Seq<char>>, e: Ed) -> Ed {
    if e.line < hist.len() {
        let prev_len = ed_displayed(hist, e).len() as int;
        let moved = Ed { cursor: e.cursor, line: e.line + 1, input: e.input };
        let curr_len = ed_displayed(hist, moved).len() as int;
        if e.cursor == prev_len || e.cursor > curr_len {
            Ed { cursor: curr_len, line: e.line + 1, input: e.input }
        } else {
            moved
        }
    } else {
        e
    }
}

/// Word-backspace: fork, then delete from the word boundary left of the
/// cursor up to the cursor.
pub open spec fn ed_word_backspace(hist: Seq<Seq<char>>, e: Ed) -> Ed {
    let f = ed_fork(hist, e);
    let b = word_left_pos(f.input, e.cursor);
    Ed {
        cursor: b,
        line: f.line,
        input: f.input.subrange(0, b) + f.input.subrange(e.cursor, f.input.len() as int),
    }
}

/// Line-backspace: fork, then delete everything left of the cursor.
pub open spec fn ed_line_backspace(hist: Seq<Seq<char>>, e: Ed) -> Ed {
    let f = ed_fork(hist, e);
    Ed {
        cursor: 0,
        line: f.line,
        input: f.input.subrange(e.cursor, f.input.len() as int),
    }
}

/// The transition one key event makes on the editing state. `Enter` is not
/// an edit: the session loop handles it, so here it leaves the state alone,
/// as does a non-ASCII character.
pub open spec fn ed_step(hist: Seq<Seq<char>>, e: Ed, k: KeyEvent) -> Ed {
    match k {
        KeyEvent::Char(c) => if is_ascii_char(c) && c != '\n' {
            ed_insert(hist, e, c)
        } else {
            e
        },
        KeyEvent::Enter => e,
        KeyEvent::Backspace => ed_backspace(hist, e),
        KeyEvent::ArrowLeft => if e.cursor > 0 {
            Ed { cursor: e.cursor - 1, line: e.line, input: e.input }
        } else {
            e
        },
        KeyEvent::ArrowRight => if e.cursor < ed_displayed(hist, e).len() {
            Ed { cursor: e.cursor + 1, line: e.line, input: e.input }
        } else {
            e
        },
        KeyEvent::ArrowUp => ed_up(hist, e),
        KeyEvent::ArrowDown => ed_down(hist, e),
        KeyEvent::WordLeft => Ed {
            cursor: word_left_pos(ed_displayed(hist, e), e.cursor),
            line: e.line,
            input: e.input,
        },
        KeyEvent::WordRight => Ed {
            cursor: word_right_pos(ed_displayed(hist, e), e.cursor),
            line: e.line,
            input: e.input,
        },
        KeyEvent::LineStart => Ed { cursor: 0, line: e.line, input: e.input },
        KeyEvent::LineEnd => Ed {
            cursor: ed_displayed(hist, e).len() as int,
            line: e.line,
            input: e.input,
        },
        KeyEvent::WordBackspace => ed_word_backspace(hist, e),
        KeyEvent::LineBackspace => ed_line_backspace(hist, e),
    }
}

/// Every key event keeps the editing-round invariant.
pub proof fn lemma_step_preserves_wf(hist: Seq<Seq<char>>, e: Ed, k: KeyEvent)
    requires
        ed_wf(hist, e),
    ensures
        ed_wf(hist, ed_step(hist, e, k)),
{
    match k {
        KeyEvent::WordLeft => {
            lemma_word_scan_left_bounds(ed_displayed(hist, e), e.cursor - 1, false);
        },
        KeyEvent::WordRight => {
            lemma_word_scan_right_bounds(ed_displayed(hist, e), e.cursor, false);
        },
        KeyEvent::WordBackspace => {
            let f = ed_fork(hist, e);
            lemma_word_scan_left_bounds(f.input, e.cursor - 1, false);
        },
        _ => {},
    }
}

/// The key that ends a round. A newline character commits like `Enter`, as
/// it does on a terminal.
pub open spec fn is_commit_key(k: KeyEvent) -> bool {
    (k matches KeyEvent::Enter) || (k matches KeyEvent::Char('\n'))
}

/// What a commit does: a draft in view is appended to the history and is the
/// committed line; a history entry in view is the committed line unchanged,
/// with no duplicate appended.
pub open spec fn commit_spec(hist: Seq<Seq<char>>, line: int, input: Seq<char>) -> (Seq<
    Seq<char>,
>, Seq<char>) {
    if line == hist.len() {
        (hist.push(input), input)
    } else {
        (hist, hist[line])
    }
}

/// Folds the remaining keys of a session over the current round state:
/// commit keys close the round and start a fresh one, every other key steps
/// the editing state. Keys that run out mid-round end the session with that
/// round discarded. Returns the final history and the committed lines.
pub open spec fn session_steps(
    hist: Seq<Seq<char>>,
    e: Ed,
    keys: Seq<KeyEvent>,
    acc: Seq<Seq<char>>,
) -> (Seq<Seq<char>>, Seq<Seq<char>>)
    decreases keys.len()
{
    if keys.len() == 0 {
        (hist, acc)
    } else if is_commit_key(keys[0]) {
        let (h2, line) = commit_spec(hist, e.line, e.input);
        session_steps(h2, ed_init(h2.len() as int), keys.skip(1), acc.push(line))
    } else {
        session_steps(hist, ed_step(hist, e, keys[0]), keys.skip(1), acc)
    }
}

/// The outcome of feeding a whole key sequence to a session that starts with
/// the given history: the final history and the committed lines, in order.
pub open spec fn session_outcome(hist: Seq<Seq<char>>, keys: Seq<KeyEvent>) -> (Seq<
    Seq<char>,
>, Seq<Seq<char>>) {
    session_steps(hist, ed_init(hist.len() as int), keys, Seq::empty())
}

/// A commit never rewrites the history: what was there before is a prefix of
/// what is there after.
pub proof fn lemma_commit_extends_history(hist: Seq<Seq<char>>, line: int, input: Seq<char>)
    ensures
        hist.len() <= commit_spec(hist, line, input).0.len(),
        forall|i: int|
            0 <= i < hist.len() ==> commit_spec(hist, line, input).0[i] == hist[i],
{
}

/// Round trip: committing an unedited recalled entry returns exactly that
/// entry and leaves the history as it was, with no duplicate appended.
pub proof fn lemma_commit_recall_round_trip(hist: Seq<Seq<char>>, line: int, input: Seq<char>)
    requires
        0 <= line < hist.len(),
    ensures
        commit_spec(hist, line, input).0 == hist,
        commit_spec(hist, line, input).1 == hist[line],
{
}

proof fn lemma_session_steps_extend(
    hist: Seq<Seq<char>>,
    e: Ed,
    keys: Seq<KeyEvent>,
    acc: Seq<Seq<char>>,
)
    ensures
        hist.len() <= session_steps(hist, e, keys, acc).0.len(),
        forall|i: int|
            0 <= i < hist.len() ==> session_steps(hist, e, keys, acc).0[i] == hist[i],
    decreases keys.len(),
{
    if keys.len() != 0 {
        if is_commit_key(keys[0]) {
            let (h2, line) = commit_spec(hist, e.line, e.input);
            lemma_commit_extends_history(hist, e.line, e.input);
            lemma_session_steps_extend(h2, ed_init(h2.len() as int), keys.skip(1), acc.push(line));
        } else {
            lemma_session_steps_extend(hist, ed_step(hist, e, keys[0]), keys.skip(1), acc);
        }
    }
}

/// The history is append-only across a whole session: entries committed
/// earlier are never mutated or removed by any later key, edit or recall.
pub proof fn lemma_session_extends_history(hist: Seq<Seq<char>>, keys: Seq<KeyEvent>)
    ensures
        hist.len() <= session_outcome(hist, keys).0.len(),
        forall|i: int|
            0 <= i < hist.len() ==> session_outcome(hist, keys).0[i] == hist[i],
{
    lemma_session_steps_extend(hist, ed_init(hist.len() as int), keys, Seq::empty());
}

/// The backward word scan over a line, from `pos` towards the start.
pub fn word_left_scan(line: &str, pos: usize) -> (r: usize)
    requires
        pos <= line@.len(),
    ensures
        r == word_left_pos(line@, pos as int),
        r <= pos,
{
    let mut i = pos;
    let mut in_word = false;
    while i > 0
        invariant
            i <= pos <= line@.len(),
            word_scan_left(line@, i - 1, in_word) == word_left_pos(line@, pos as int),
        decreases i,
    {
        let c = line.get_char(i - 1);
        if word_char(c) {
            in_word = true;
        } else if in_word {
            return i;
        }
        i = i - 1;
    }
    0
}

/// The forward word scan over a line, from `pos` towards the end.
pub fn word_right_scan(line: &str, pos: usize) -> (r: usize)
    requires
        pos <= line@.len(),
    ensures
        r == word_right_pos(line@, pos as int),
        pos <= r <= line@.len(),
{
    let n = line.unicode_len();
    let mut i = pos;
    let mut in_word = false;
    while i < n
        invariant
            pos <= i <= n,
            n == line@.len(),
            word_scan_right(line@, i as int, in_word) == word_right_pos(line@, pos as int),
        decreases n - i,
    {
        let c = line.get_char(i);
        if word_char(c) {
            in_word = true;
        } else if in_word {
            return i;
        }
        i = i + 1;
    }
    n
}

/// The state of one editing round: a borrowed view of the session's history
/// plus the private draft buffer and the cursor.
pub struct KeyHandler<'a> {
    cursor_pos: usize,
    line_pos: usize,
    input: String,
    history: &'a Vec<String>,
}

impl<'a> KeyHandler<'a> {
    /// The mathematical state of this round.
    pub closed spec fn ed(self) -> Ed {
        Ed { cursor: self.cursor_pos as int, line: self.line_pos as int, input: self.input@ }
    }

    /// The history as a sequence of lines.
    pub closed spec fn hist(self) -> Seq<Seq<char>> {
        self.history.deep_view()
    }

    /// The editing-round invariant, carried by every method.
    pub closed spec fn wf(self) -> bool {
        ed_wf(self.hist(), self.ed())
    }

    /// The line currently shown.
    pub closed spec fn displayed(self) -> Seq<char> {
        ed_displayed(self.hist(), self.ed())
    }

    /// A fresh round: empty draft in view, cursor at the left edge.
    pub fn new(history: &'a Vec<String>) -> (r: Self)
        ensures
            r.hist() == history.deep_view(),
            r.ed() == ed_init(history.deep_view().len() as int),
            r.wf(),
    {
        KeyHandler { cursor_pos: 0, line_pos: history.len(), input: String::new(), history }
    }

    /// The round's view index and draft buffer, for the commit step.
    pub fn into_parts(self) -> (r: (usize, String))
        ensures
            r.0 as int == self.ed().line,
            r.1@ == self.ed().input,
    {
        (self.line_pos, self.input)
    }

    /// The cursor position within the displayed line.
    pub fn cursor(&self) -> (r: usize)
        ensures
            r as int == self.ed().cursor,
    {
        self.cursor_pos
    }

    /// The line currently shown: a history entry while one is in view,
    /// otherwise the draft buffer.
    pub fn get_displayed_line(&self) -> (r: &str)
        ensures
            r@ == self.displayed(),
    {
        if self.line_pos < self.history.len() {
            self.history[self.line_pos].as_str()
        } else {
            self.input.as_str()
        }
    }

    /// Fork-on-write: copy a history entry in view into the draft buffer, so
    /// the entry itself is never edited.
    pub fn prepare_for_edit(&mut self)
        requires
            old(self).wf(),
        ensures
            final(self).hist() == old(self).hist(),
            final(self).ed() == ed_fork(old(self).hist(), old(self).ed()),
            final(self).wf(),
    {
        if self.line_pos < self.history.len() {
            self.input = self.history[self.line_pos].clone();
            self.line_pos = self.history.len();
        }
    }

    /// Insert `c` before the cursor, forking first.
    pub fn handle_char(&mut self, c: char)
        requires
            old(self).wf(),
        ensures
            final(self).hist() == old(self).hist(),
            final(self).ed() == ed_insert(old(self).hist(), old(self).ed(), c),
            final(self).wf(),
    {
        self.prepare_for_edit();
        let new_input = insert_char(self.input.as_str(), self.cursor_pos, c);
        // reading the new length shows the advanced cursor still fits in usize
        let _len = new_input.as_str().unicode_len();
        self.input = new_input;
        self.cursor_pos = self.cursor_pos + 1;
    }

    /// Remove the character left of the cursor, forking first; a no-op with
    /// the cursor at the left edge.
    pub fn handle_backspace(&mut self)
        requires
            old(self).wf(),
        ensures
            final(self).hist() == old(self).hist(),
            final(self).ed() == ed_backspace(old(self).hist(), old(self).ed()),
            final(self).wf(),
    {
        self.prepare_for_edit();
        if self.cursor_pos > 0 {
            self.cursor_pos = self.cursor_pos - 1;
            self.input = remove_char(self.input.as_str(), self.cursor_pos);
        }
    }

    /// Move the cursor one position left, stopping at the left edge.
    pub fn handle_left(&mut self)
        requires
            old(self).wf(),
        ensures
            final(self).hist() == old(self).hist(),
            final(self).ed() == ed_step(old(self).hist(), old(self).ed(), KeyEvent::ArrowLeft),
            final(self).wf(),
    {
        if self.cursor_pos > 0 {
            self.cursor_pos = self.cursor_pos - 1;
        }
    }

    /// Move the cursor one position right, stopping at the end of the line.
    pub fn handle_right(&mut self)
        requires
            old(self).wf(),
        ensures
            final(self).hist() == old(self).hist(),
            final(self).ed() == ed_step(old(self).hist(), old(self).ed(), KeyEvent::ArrowRight),
            final(self).wf(),
    {
        let n = self.get_displayed_line().unicode_len();
        if self.cursor_pos < n {
            self.cursor_pos = self.cursor_pos + 1;
        }
    }

    /// Bring the previous history entry into view; read-only, no fork.
    pub fn handle_up(&mut self)
        requires
            old(self).wf(),
        ensures
            final(self).hist() == old(self).hist(),
            final(self).ed() == ed_up(old(self).hist(), old(self).ed()),
            final(self).wf(),
    {
        if self.line_pos > 0 {
            let prev_len = self.get_displayed_line().unicode_len();
            self.line_pos = self.line_pos - 1;
            let curr_len = self.get_displayed_line().unicode_len();
            if self.cursor_pos == prev_len || self.cursor_pos > curr_len {
                self.cursor_pos = curr_len;
            }
        }
    }

    /// Bring the next history entry, or the draft, into view; no fork.
    pub fn handle_down(&mut self)
        requires
            old(self).wf(),
        ensures
            final(self).hist() == old(self).hist(),
            final(self).ed() == ed_down(old(self).hist(), old(self).ed()),
            final(self).wf(),
    {
        if self.line_pos < self.history.len() {
            let prev_len = self.get_displayed_line().unicode_len();
            self.line_pos = self.line_pos + 1;
            let curr_len = self.get_displayed_line().unicode_len();
            if self.cursor_pos == prev_len || self.cursor_pos > curr_len {
                self.cursor_pos = curr_len;
            }
        }
    }

    /// Move the cursor to the word boundary on its left.
    pub fn handle_word_left(&mut self)
        requires
            old(self).wf(),
        ensures
            final(self).hist() == old(self).hist(),
            final(self).ed() == ed_step(old(self).hist(), old(self).ed(), KeyEvent::WordLeft),
            final(self).wf(),
    {
        let p = word_left_scan(self.get_displayed_line(), self.cursor_pos);
        self.cursor_pos = p;
    }

    /// Move the cursor to the word boundary on its right.
    pub fn handle_word_right(&mut self)
        requires
            old(self).wf(),
        ensures
            final(self).hist() == old(self).hist(),
            final(self).ed() == ed_step(old(self).hist(), old(self).ed(), KeyEvent::WordRight),
            final(self).wf(),
    {
        let p = word_right_scan(self.get_displayed_line(), self.cursor_pos);
        self.cursor_pos = p;
    }

    /// Move the cursor to the start of the line.
    pub fn handle_line_left(&mut self)
        requires
            old(self).wf(),
        ensures
            final(self).hist() == old(self).hist(),
            final(self).ed() == ed_step(old(self).hist(), old(self).ed(), KeyEvent::LineStart),
            final(self).wf(),
    {
        self.cursor_pos = 0;
    }

    /// Move the cursor to the end of the line.
    pub fn handle_line_right(&mut self)
        requires
            old(self).wf(),
        ensures
            final(self).hist() == old(self).hist(),
            final(self).ed() == ed_step(old(self).hist(), old(self).ed(), KeyEvent::LineEnd),
            final(self).wf(),
    {
        let n = self.get_displayed_line().unicode_len();
        self.cursor_pos = n;
    }

    /// Delete from the word boundary left of the cursor up to the cursor,
    /// forking first.
    pub fn handle_word_backspace(&mut self)
        requires
            old(self).wf(),
        ensures
            final(self).hist() == old(self).hist(),
            final(self).ed() == ed_word_backspace(old(self).hist(), old(self).ed()),
            final(self).wf(),
    {
        self.prepare_for_edit();
        let b = word_left_scan(self.input.as_str(), self.cursor_pos);
        let new_input = remove_range(self.input.as_str(), b, self.cursor_pos);
        self.input = new_input;
        self.cursor_pos = b;
    }

    /// Delete everything left of the cursor, forking first.
    pub fn handle_line_backspace(&mut self)
        requires
            old(self).wf(),
        ensures
            final(self).hist() == old(self).hist(),
            final(self).ed() == ed_line_backspace(old(self).hist(), old(self).ed()),
            final(self).wf(),
    {
        self.prepare_for_edit();
        let new_input = remove_range(self.input.as_str(), 0, self.cursor_pos);
        self.input = new_input;
        self.cursor_pos = 0;
    }

    /// Dispatch one non-commit key event to the editing state machine. A
    /// commit key and a non-ASCII character leave the state unchanged.
    pub fn handle_key(&mut self, k: KeyEvent)
        requires
            old(self).wf(),
        ensures
            final(self).hist() == old(self).hist(),
            final(self).ed() == ed_step(old(self).hist(), old(self).ed(), k),
            final(self).wf(),
    {
        match k {
            KeyEvent::Char(c) => {
                if ascii_char(c) && c != '\n' {
                    self.handle_char(c);
                }
            },
            KeyEvent::Enter => {},
            KeyEvent::Backspace => self.handle_backspace(),
            KeyEvent::ArrowLeft => self.handle_left(),
            KeyEvent::ArrowRight => self.handle_right(),
            KeyEvent::ArrowUp => self.handle_up(),
            KeyEvent::ArrowDown => self.handle_down(),
            KeyEvent::WordLeft => self.handle_word_left(),
            KeyEvent::WordRight => self.handle_word_right(),
            KeyEvent::LineStart => self.handle_line_left(),
            KeyEvent::LineEnd => self.handle_line_right(),
            KeyEvent::WordBackspace => self.handle_word_backspace(),
            KeyEvent::LineBackspace => self.handle_line_backspace(),
        }
    }
}

/// Whether a key event commits the current round.
pub fn commit_key(k: KeyEvent) -> (r: bool)
    ensures
        r == is_commit_key(k),
{
    match k {
        KeyEvent::Enter => true,
        KeyEvent::Char(c) => c == '\n',
        _ => false,
    }
}

/// The long-lived session state: the prompt label and the append-only
/// history of committed lines.
pub struct Prompter {
    prompt: String,
    history: Vec<String>,
}

impl Prompter {
    /// The history as a sequence of lines.
    pub closed spec fn hist(self) -> Seq<Seq<char>> {
        self.history.deep_view()
    }

    /// The prompt label as a sequence of characters.
    pub closed spec fn prompt_view(self) -> Seq<char> {
        self.prompt@
    }

    /// A fresh session: empty history, prompt `"> "`.
    pub fn new() -> (r: Self)
        ensures
            r.hist() == Seq::<Seq<char>>::empty(),
            r.prompt_view() == "> "@,
    {
        let r = Prompter { prompt: String::from_str("> "), history: Vec::new() };
        proof {
            assert(r.history.deep_view() =~= Seq::<Seq<char>>::empty());
        }
        r
    }

    /// The prompt label shown before the edited line.
    pub fn prompt(&self) -> (r: &str)
        ensures
            r@ == self.prompt_view(),
    {
        self.prompt.as_str()
    }

    /// The committed lines so far, oldest first.
    pub fn history(&self) -> (r: &Vec<String>)
        ensures
            r.deep_view() == self.hist(),
    {
        &self.history
    }

    /// End a round: a draft in view (`line_pos == history.len()`) is appended
    /// and committed; a history entry in view is committed unchanged, with no
    /// duplicate appended.
    pub fn commit(&mut self, line_pos: usize, input: String) -> (line: String)
        requires
            line_pos as int <= old(self).hist().len(),
        ensures
            final(self).hist() == commit_spec(old(self).hist(), line_pos as int, input@).0,
            line@ == commit_spec(old(self).hist(), line_pos as int, input@).1,
            final(self).prompt_view() == old(self).prompt_view(),
    {
        let ghost iv = input@;
        if line_pos == self.history.len() {
            self.history.push(input);
            proof {
                assert(self.history.deep_view() =~= old(self).history.deep_view().push(iv));
            }
        }
        self.history[line_pos].clone()
    }

    /// Run a whole session on a finite key sequence: every commit key ends a
    /// round and yields one committed line; keys running out mid-round end
    /// the session with that round discarded. Returns the committed lines.
    pub fn run_keys(&mut self, keys: &Vec<KeyEvent>) -> (lines: Vec<String>)
        ensures
            final(self).hist() == session_outcome(old(self).hist(), keys@).0,
            lines.deep_view() == session_outcome(old(self).hist(), keys@).1,
            final(self).prompt_view() == old(self).prompt_view(),
    {
        let ghost target = session_outcome(old(self).hist(), keys@);
        let mut lines: Vec<String> = Vec::new();
        let mut j: usize = 0;
        proof {
            assert(lines.deep_view() =~= Seq::<Seq<char>>::empty());
            assert(keys@.skip(0) =~= keys@);
        }
        while j < keys.len()
            invariant
                j <= keys@.len(),
                session_steps(
                    self.hist(),
                    ed_init(self.hist().len() as int),
                    keys@.skip(j as int),
                    lines.deep_view(),
                ) == target,
                self.prompt_view() == old(self).prompt_view(),
            decreases keys@.len() - j,
        {
            let ghost j0 = j;
            let mut handler = KeyHandler::new(&self.history);
            while j < keys.len() && !commit_key(keys[j])
                invariant
                    j0 <= j <= keys@.len(),
                    handler.wf(),
                    handler.hist() == self.hist(),
                    session_steps(
                        self.hist(),
                        handler.ed(),
                        keys@.skip(j as int),
                        lines.deep_view(),
                    ) == target,
                decreases keys@.len() - j,
            {
                let k = keys[j];
                j = j + 1;
                proof {
                    assert(keys@.skip(j - 1).skip(1) =~= keys@.skip(j as int));
                }
                handler.handle_key(k);
            }
            if j < keys.len() {
                // the round ends on the commit key at position j
                let ghost e = handler.ed();
                let (lp, input) = handler.into_parts();
                j = j + 1;
                proof {
                    assert(keys@.skip(j - 1).skip(1) =~= keys@.skip(j as int));
                }
                let ghost dv0 = lines.deep_view();
                let line = self.commit(lp, input);
                lines.push(line);
                proof {
                    assert(lines.deep_view() =~= dv0.push(line@));
                }
            }
        }
        proof {
            assert(keys@.skip(j as int) =~= Seq::<KeyEvent>::empty());
        }
        lines
    }
}

} // verus!
