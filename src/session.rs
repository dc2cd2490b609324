//! The interactive session: a selection over the todo records of a document,
//! navigation, toggling, and the decision to save or to celebrate.

use vstd::prelude::*;
use crate::document::{views, Document};
use vstd::arithmetic::div_mod::{
    lemma_add_mod_noop_right, lemma_fundamental_div_mod, lemma_mod_add_multiples_vanish,
    lemma_mod_bound, lemma_mod_multiples_vanish, lemma_mod_self_0, lemma_small_mod,
};
use crate::line::{LineKind, LineRecord, LineSpec};

verus! {

pub open spec fn is_todo(s: Seq<LineSpec>, i: int) -> bool {
    0 <= i < s.len() && s[i].kind == LineKind::Todo
}

pub open spec fn has_todo(s: Seq<LineSpec>) -> bool {
    exists|i: int| is_todo(s, i)
}

pub open spec fn has_incomplete(s: Seq<LineSpec>) -> bool {
    exists|i: int| is_todo(s, i) && !s[i].completed
}

pub open spec fn all_complete(s: Seq<LineSpec>) -> bool {
    forall|i: int| is_todo(s, i) ==> s[i].completed
}

/// A selection is within the records (0 on an empty document), and is on a
/// todo record whenever there is one.
pub open spec fn valid_selection(s: Seq<LineSpec>, sel: int) -> bool {
    &&& (s.len() == 0 ==> sel == 0)
    &&& (s.len() > 0 ==> 0 <= sel < s.len())
    &&& (has_todo(s) ==> is_todo(s, sel))
}

/// The last index of `n` records, or 0 where there are none.
pub open spec fn last_or_zero(n: int) -> int {
    if n == 0 {
        0
    } else {
        n - 1
    }
}

/// The index `m` steps after `start`, going round.
pub open spec fn ahead(start: int, m: int, n: int) -> int {
    (start + m) % n
}

/// The index `m` steps before `start`, going round.
pub open spec fn behind(start: int, m: int, n: int) -> int {
    (start - m) % n
}

/// The number of steps, from `k` on, after which a forward search from
/// `start` meets a todo record, or `n` where it comes back to `start`.
pub open spec fn forward_steps(s: Seq<LineSpec>, start: int, k: int) -> int
    decreases s.len() - k,
{
    if k >= s.len() {
        s.len() as int
    } else if is_todo(s, ahead(start, k, s.len() as int)) {
        k
    } else {
        forward_steps(s, start, k + 1)
    }
}

/// The same, searching backward.
pub open spec fn backward_steps(s: Seq<LineSpec>, start: int, k: int) -> int
    decreases s.len() - k,
{
    if k >= s.len() {
        s.len() as int
    } else if is_todo(s, behind(start, k, s.len() as int)) {
        k
    } else {
        backward_steps(s, start, k + 1)
    }
}

/// Where `next` moves the selection.
pub open spec fn next_index(s: Seq<LineSpec>, start: int) -> int {
    if s.len() == 0 {
        start
    } else {
        ahead(start, forward_steps(s, start, 1), s.len() as int)
    }
}

/// Where `previous` moves the selection.
pub open spec fn previous_index(s: Seq<LineSpec>, start: int) -> int {
    if s.len() == 0 {
        start
    } else {
        behind(start, backward_steps(s, start, 1), s.len() as int)
    }
}

/// The records after `toggle_current` at `sel`: the flag flipped on a todo
/// record, nothing changed otherwise.
pub open spec fn toggled(s: Seq<LineSpec>, sel: int) -> Seq<LineSpec> {
    if is_todo(s, sel) {
        s.update(sel, LineSpec { kind: s[sel].kind, completed: !s[sel].completed, text: s[sel].text })
    } else {
        s
    }
}

/// A toggle from `before` to `after` completes the list.
pub open spec fn celebrates(before: Seq<LineSpec>, after: Seq<LineSpec>) -> bool {
    has_incomplete(before) && all_complete(after) && has_todo(after)
}

pub open spec fn count_incomplete(s: Seq<LineSpec>) -> nat
    decreases s.len(),
{
    if s.len() == 0 {
        0
    } else {
        count_incomplete(s.drop_last()) + if s.last().kind == LineKind::Todo
            && !s.last().completed {
            1nat
        } else {
            0nat
        }
    }
}

pub open spec fn count_complete(s: Seq<LineSpec>) -> nat
    decreases s.len(),
{
    if s.len() == 0 {
        0
    } else {
        count_complete(s.drop_last()) + if s.last().kind == LineKind::Todo && s.last().completed {
            1nat
        } else {
            0nat
        }
    }
}

/// The index of the first todo record, or 0 where there is none.
pub open spec fn first_todo_index(s: Seq<LineSpec>) -> int {
    if has_todo(s) {
        choose|i: int| is_todo(s, i) && forall|j: int| 0 <= j < i ==> !is_todo(s, j)
    } else {
        0
    }
}

/// The index of the last todo record, or the last index where there is none.
pub open spec fn last_todo_index(s: Seq<LineSpec>) -> int {
    if has_todo(s) {
        choose|i: int| is_todo(s, i) && forall|j: int| i < j < s.len() ==> !is_todo(s, j)
    } else {
        last_or_zero(s.len() as int)
    }
}

/// A key press, as the session sees it.
#[derive(Clone, Copy, Debug, PartialEq, Eq, Structural)]
pub enum Key {
    Quit,
    Down,
    Up,
    Top,
    Bottom,
    Toggle,
    Other,
}

/// What the caller does after a key press.
#[derive(Clone, Copy, Debug, PartialEq, Eq, Structural)]
pub enum Action {
    /// Draw again and wait for the next key.
    Continue,
    /// Save the document and end the session.
    SaveAndQuit,
    /// Save the document, show the celebration, then go on.
    SaveAndCelebrate,
}

/// An interactive session over one document.
pub struct App {
    pub document: Document,
    pub selected: usize,
}

fn is_todo_record(r: &LineRecord) -> (b: bool)
    ensures
        b == (r.kind == LineKind::Todo),
{
    match r.kind {
        LineKind::Todo => true,
        _ => false,
    }
}

/// The index that a forward search from `start` stops at.
fn step_forward(items: &Vec<LineRecord>, start: usize) -> (r: usize)
    requires
        valid_selection(views(items@), start as int),
    ensures
        valid_selection(views(items@), r as int),
        r as int == next_index(views(items@), start as int),
{
    let n = items.len();
    if n == 0 {
        return start;
    }
    let ghost s = views(items@);
    let mut k: usize = 1;
    assert(forward_steps(s, start as int, 1) == forward_steps(s, start as int, k as int));
    loop
        invariant
            1 <= k <= n,
            n == s.len(),
            start < n,
            s == views(items@),
            valid_selection(s, start as int),
            forall|m: int| 1 <= m < k ==> !is_todo(s, ahead(start as int, m, n as int)),
            forward_steps(s, start as int, 1) == forward_steps(s, start as int, k as int),
        decreases n - k,
    {
        let idx: usize = if k < n - start {
            start + k
        } else {
            k - (n - start)
        };
        proof {
            if k < n - start {
                assert((start + k) % (n as int) == start + k) by (nonlinear_arith)
                    requires
                        0 <= start + k < n,
                ;
            } else {
                assert((start + k) % (n as int) == start + k - n) by (nonlinear_arith)
                    requires
                        n <= start + k < 2 * n,
                ;
            }
        }
        proof {
            assert(s[idx as int] == items@[idx as int]@);
        }
        if is_todo_record(&items[idx]) || k == n {
            proof {
                if k == n {
                    assert(idx == start);
                }
                assert(forward_steps(s, start as int, k as int) == k);
            }
            return idx;
        }
        proof {
            assert(!is_todo(s, ahead(start as int, k as int, n as int)));
        }
        k = k + 1;
    }
}


/// The index that a backward search from `start` stops at.
fn step_backward(items: &Vec<LineRecord>, start: usize) -> (r: usize)
    requires
        valid_selection(views(items@), start as int),
    ensures
        valid_selection(views(items@), r as int),
        r as int == previous_index(views(items@), start as int),
{
    let n = items.len();
    if n == 0 {
        return start;
    }
    let ghost s = views(items@);
    let mut k: usize = 1;
    loop
        invariant
            1 <= k <= n,
            n == s.len(),
            start < n,
            s == views(items@),
            valid_selection(s, start as int),
            forall|m: int| 1 <= m < k ==> !is_todo(s, behind(start as int, m, n as int)),
            backward_steps(s, start as int, 1) == backward_steps(s, start as int, k as int),
        decreases n - k,
    {
        let idx: usize = if k <= start {
            start - k
        } else {
            n - (k - start)
        };
        proof {
            if k <= start {
                assert((start - k) % (n as int) == start - k) by (nonlinear_arith)
                    requires
                        0 <= start - k < n,
                ;
            } else {
                assert((start - k) % (n as int) == start - k + n) by (nonlinear_arith)
                    requires
                        -n <= start - k < 0,
                ;
            }
        }
        proof {
            assert(s[idx as int] == items@[idx as int]@);
        }
        if is_todo_record(&items[idx]) || k == n {
            proof {
                if k == n {
                    assert(idx == start);
                }
                assert(backward_steps(s, start as int, k as int) == k);
            }
            return idx;
        }
        proof {
            assert(!is_todo(s, behind(start as int, k as int, n as int)));
        }
        k = k + 1;
    }
}


impl App {
    pub open spec fn records(&self) -> Seq<LineSpec> {
        views(self.document.items@)
    }

    pub open spec fn wf(&self) -> bool {
        valid_selection(self.records(), self.selected as int)
    }

    /// The index of the first todo record, or 0 where there is none.
    pub fn first_todo(items: &Vec<LineRecord>) -> (r: usize)
        ensures
            has_todo(views(items@)) ==> is_todo(views(items@), r as int) && forall|j: int|
                0 <= j < r ==> !is_todo(views(items@), j),
            !has_todo(views(items@)) ==> r == 0,
            r as int == first_todo_index(views(items@)),
    {
        let ghost s = views(items@);
        let mut i: usize = 0;
        while i < items.len()
            invariant
                i <= items@.len(),
                s == views(items@),
                forall|j: int| 0 <= j < i ==> !is_todo(s, j),
            decreases items@.len() - i,
        {
            proof {
                assert(s[i as int] == items@[i as int]@);
            }
            if is_todo_record(&items[i]) {
                assert(is_todo(s, i as int));
                proof {
                    let c = first_todo_index(s);
                    assert(is_todo(s, c) && forall|j: int| 0 <= j < c ==> !is_todo(s, j));
                    if c < i {
                        assert(!is_todo(s, c));
                    }
                    if c > i {
                        assert(!is_todo(s, i as int));
                    }
                }
                return i;
            }
            i = i + 1;
        }
        0
    }

    /// The index of the last todo record, or the last index where there is none.
    pub fn last_todo(items: &Vec<LineRecord>) -> (r: usize)
        ensures
            has_todo(views(items@)) ==> is_todo(views(items@), r as int) && forall|j: int|
                r < j < items@.len() ==> !is_todo(views(items@), j),
            !has_todo(views(items@)) ==> r as int == last_or_zero(items@.len() as int),
            r as int == last_todo_index(views(items@)),
    {
        let ghost s = views(items@);
        let mut i: usize = items.len();
        while i > 0
            invariant
                i <= items@.len(),
                s == views(items@),
                forall|j: int| i <= j < items@.len() ==> !is_todo(s, j),
            decreases i,
        {
            proof {
                assert(s[i - 1] == items@[i - 1]@);
            }
            if is_todo_record(&items[i - 1]) {
                assert(is_todo(s, i - 1));
                proof {
                    let c = last_todo_index(s);
                    assert(is_todo(s, c) && forall|j: int| c < j < s.len() ==> !is_todo(s, j));
                    if c < i - 1 {
                        assert(!is_todo(s, i - 1));
                    }
                    if c > i - 1 {
                        assert(!is_todo(s, c));
                    }
                }
                return i - 1;
            }
            i = i - 1;
        }
        if items.len() == 0 {
            0
        } else {
            items.len() - 1
        }
    }

    /// A session over `document`, with the first todo record selected.
    pub fn new(document: Document) -> (app: App)
        ensures
            app.wf(),
            app.document == document,
            app.selected as int == first_todo_index(app.records()),
            has_todo(app.records()) ==> forall|j: int|
                0 <= j < app.selected ==> !is_todo(app.records(), j),
            !has_todo(app.records()) ==> app.selected == 0,
    {
        let selected = App::first_todo(&document.items);
        App { document, selected }
    }

    /// Moves the selection to the next todo record, going round; it stays
    /// where it is when there is no other.
    pub fn next(&mut self)
        requires
            old(self).wf(),
        ensures
            final(self).wf(),
            final(self).document == old(self).document,
            final(self).selected as int == next_index(old(self).records(), old(self).selected as int),
    {
        self.selected = step_forward(&self.document.items, self.selected);
    }

    /// Moves the selection to the previous todo record, going round; it stays
    /// where it is when there is no other.
    pub fn previous(&mut self)
        requires
            old(self).wf(),
        ensures
            final(self).wf(),
            final(self).document == old(self).document,
            final(self).selected as int == previous_index(
                old(self).records(),
                old(self).selected as int,
            ),
    {
        self.selected = step_backward(&self.document.items, self.selected);
    }

    /// Selects the first todo record, or index 0 where there is none.
    pub fn goto_top(&mut self)
        requires
            old(self).wf(),
        ensures
            final(self).wf(),
            final(self).document == old(self).document,
            has_todo(final(self).records()) ==> forall|j: int|
                0 <= j < final(self).selected ==> !is_todo(final(self).records(), j),
            !has_todo(final(self).records()) ==> final(self).selected == 0,
            final(self).selected as int == first_todo_index(final(self).records()),
    {
        self.selected = App::first_todo(&self.document.items);
    }

    /// Selects the last todo record, or the last index where there is none.
    pub fn goto_bottom(&mut self)
        requires
            old(self).wf(),
        ensures
            final(self).wf(),
            final(self).document == old(self).document,
            has_todo(final(self).records()) ==> forall|j: int|
                final(self).selected < j < final(self).records().len() ==> !is_todo(
                    final(self).records(),
                    j,
                ),
            !has_todo(final(self).records()) ==> final(self).selected as int == last_or_zero(
                final(self).records().len() as int,
            ),
            final(self).selected as int == last_todo_index(final(self).records()),
    {
        self.selected = App::last_todo(&self.document.items);
    }

    /// Flips the flag of the selected record where it is a todo record.
    pub fn toggle_current(&mut self)
        requires
            old(self).wf(),
        ensures
            final(self).wf(),
            final(self).selected == old(self).selected,
            final(self).records() == toggled(old(self).records(), old(self).selected as int),
            final(self).document.list_path == old(self).document.list_path,
            final(self).document.list_name == old(self).document.list_name,
    {
        let sel = self.selected;
        if sel < self.document.items.len() {
            if is_todo_record(&self.document.items[sel]) {
                let r = LineRecord {
                    text: self.document.items[sel].text.clone(),
                    kind: LineKind::Todo,
                    completed: !self.document.items[sel].completed,
                };
                let ghost before = self.records();
                self.document.items.set(sel, r);
                proof {
                    assert(self.records() =~= toggled(before, sel as int));
                    assert(is_todo(self.records(), sel as int));
                }
            }
        }
    }

    /// The numbers of unchecked and of checked todo records.
    pub fn count_todos(&self) -> (r: (usize, usize))
        ensures
            r.0 == count_incomplete(self.records()),
            r.1 == count_complete(self.records()),
    {
        let ghost s = self.records();
        let mut incomplete: usize = 0;
        let mut complete: usize = 0;
        let mut i: usize = 0;
        while i < self.document.items.len()
            invariant
                i <= s.len(),
                s == self.records(),
                incomplete == count_incomplete(s.subrange(0, i as int)),
                complete == count_complete(s.subrange(0, i as int)),
                incomplete + complete <= i,
            decreases s.len() - i,
        {
            let r = &self.document.items[i];
            proof {
                assert(s.subrange(0, i + 1).drop_last() =~= s.subrange(0, i as int));
                assert(s[i as int] == r@);
            }
            if is_todo_record(r) {
                if r.completed {
                    complete = complete + 1;
                } else {
                    incomplete = incomplete + 1;
                }
            }
            i = i + 1;
        }
        proof {
            assert(s.subrange(0, s.len() as int) =~= s);
        }
        (incomplete, complete)
    }

    /// Whether some todo record is unchecked.
    pub fn has_incomplete(&self) -> (b: bool)
        ensures
            b == has_incomplete(self.records()),
    {
        let ghost s = self.records();
        let mut i: usize = 0;
        while i < self.document.items.len()
            invariant
                i <= s.len(),
                s == self.records(),
                forall|j: int| 0 <= j < i ==> !(is_todo(s, j) && !s[j].completed),
            decreases s.len() - i,
        {
            proof {
                assert(s[i as int] == self.document.items@[i as int]@);
            }
            if is_todo_record(&self.document.items[i]) && !self.document.items[i].completed {
                assert(is_todo(s, i as int) && !s[i as int].completed);
                return true;
            }
            i = i + 1;
        }
        false
    }

    /// Handles one key press and says what the caller does next: a quit key
    /// saves and ends; moves change the selection only; a toggle that checks
    /// the last unchecked todo record saves and celebrates.
    pub fn handle_key(&mut self, key: Key) -> (action: Action)
        requires
            old(self).wf(),
        ensures
            final(self).wf(),
            final(self).document.list_path == old(self).document.list_path,
            final(self).document.list_name == old(self).document.list_name,
            key != Key::Toggle ==> final(self).document == old(self).document,
            key == Key::Quit ==> action == Action::SaveAndQuit && final(self).selected
                == old(self).selected,
            key == Key::Down ==> action == Action::Continue && final(self).selected as int
                == next_index(old(self).records(), old(self).selected as int),
            key == Key::Up ==> action == Action::Continue && final(self).selected as int
                == previous_index(old(self).records(), old(self).selected as int),
            key == Key::Top ==> action == Action::Continue && final(self).selected as int
                == first_todo_index(old(self).records()),
            key == Key::Bottom ==> action == Action::Continue && final(self).selected as int
                == last_todo_index(old(self).records()),
            key == Key::Toggle ==> final(self).selected == old(self).selected,
            key == Key::Toggle ==> final(self).records() == toggled(old(self).records(), old(self).selected as int),
            key == Key::Toggle ==> action == (if celebrates(old(self).records(), final(self).records()) {
                Action::SaveAndCelebrate
            } else {
                Action::Continue
            }),
            key == Key::Other ==> action == Action::Continue && final(self).selected
                == old(self).selected,
    {
        match key {
            Key::Quit => Action::SaveAndQuit,
            Key::Down => {
                self.next();
                Action::Continue
            },
            Key::Up => {
                self.previous();
                Action::Continue
            },
            Key::Top => {
                self.goto_top();
                Action::Continue
            },
            Key::Bottom => {
                self.goto_bottom();
                Action::Continue
            },
            Key::Toggle => {
                let had_incomplete = self.has_incomplete();
                self.toggle_current();
                let all_done = !self.has_incomplete();
                let f = App::first_todo(&self.document.items);
                let any_todo = f < self.document.items.len() && is_todo_record(
                    &self.document.items[f],
                );
                proof {
                    let s = self.records();
                    if f < self.document.items@.len() {
                        assert(s[f as int] == self.document.items@[f as int]@);
                    }
                    if any_todo {
                        assert(is_todo(s, f as int));
                    }
                    assert(any_todo == has_todo(s));
                    assert(all_done == all_complete(s));
                }
                if had_incomplete && all_done && any_todo {
                    Action::SaveAndCelebrate
                } else {
                    Action::Continue
                }
            },
            Key::Other => Action::Continue,
        }
    }
}

/// The selection after `next` has been applied `k` times from `start`.
pub open spec fn next_iter(s: Seq<LineSpec>, start: int, k: nat) -> int
    decreases k,
{
    if k == 0 {
        start
    } else {
        next_index(s, next_iter(s, start, (k - 1) as nat))
    }
}

/// Toggling the same record twice restores every record.
pub proof fn lemma_toggle_twice(s: Seq<LineSpec>, sel: int)
    ensures
        toggled(toggled(s, sel), sel) == s,
{
    if is_todo(s, sel) {
        assert(toggled(toggled(s, sel), sel) =~= s);
    }
}

/// Checking the one unchecked todo record makes the toggle celebrate.
pub proof fn lemma_completing_last_celebrates(s: Seq<LineSpec>, sel: int)
    requires
        is_todo(s, sel),
        !s[sel].completed,
        forall|j: int| j != sel && is_todo(s, j) ==> s[j].completed,
    ensures
        celebrates(s, toggled(s, sel)),
{
    let t = toggled(s, sel);
    assert(is_todo(t, sel));
    assert forall|j: int| is_todo(t, j) implies t[j].completed by {
        if j != sel {
            assert(t[j] == s[j]);
            assert(is_todo(s, j));
        }
    }
}

/// A toggle never celebrates while another todo record stays unchecked.
pub proof fn lemma_no_celebration_while_others_remain(s: Seq<LineSpec>, sel: int, other: int)
    requires
        other != sel,
        is_todo(s, other),
        !s[other].completed,
    ensures
        !celebrates(s, toggled(s, sel)),
{
    let t = toggled(s, sel);
    assert(t[other] == s[other]);
    assert(is_todo(t, other));
}

/// A forward search stops on a todo record, or comes back to where it began.
proof fn lemma_forward_steps(s: Seq<LineSpec>, start: int, k: int)
    requires
        1 <= k <= s.len(),
        forall|m: int| 1 <= m < k ==> !is_todo(s, ahead(start, m, s.len() as int)),
    ensures
        k <= forward_steps(s, start, k) <= s.len(),
        forward_steps(s, start, k) < s.len() ==> is_todo(
            s,
            ahead(start, forward_steps(s, start, k), s.len() as int),
        ),
        forall|m: int|
            1 <= m < forward_steps(s, start, k) ==> !is_todo(s, ahead(start, m, s.len() as int)),
    decreases s.len() - k,
{
    if k < s.len() && !is_todo(s, ahead(start, k, s.len() as int)) {
        lemma_forward_steps(s, start, k + 1);
    }
}

/// From a valid selection, `next` gives a valid selection.
pub proof fn lemma_next_valid(s: Seq<LineSpec>, start: int)
    requires
        valid_selection(s, start),
    ensures
        valid_selection(s, next_index(s, start)),
{
    let n = s.len() as int;
    if n > 0 {
        lemma_forward_steps(s, start, 1);
        let f = forward_steps(s, start, 1);
        lemma_mod_bound(start + f, n);
        if f == n {
            lemma_mod_add_multiples_vanish(start, n);
            lemma_small_mod(start as nat, n as nat);
        }
    }
}

/// Applying `next` any number of times from a todo record only ever selects
/// todo records.
pub proof fn lemma_next_visits_only_todos(s: Seq<LineSpec>, start: int, k: nat)
    requires
        is_todo(s, start),
    ensures
        is_todo(s, next_iter(s, start, k)),
        valid_selection(s, next_iter(s, start, k)),
    decreases k,
{
    if k > 0 {
        lemma_next_visits_only_todos(s, start, (k - 1) as nat);
        lemma_next_valid(s, next_iter(s, start, (k - 1) as nat));
    }
}

/// The number of todo records before index `b`.
pub open spec fn todos_before(s: Seq<LineSpec>, b: int) -> nat
    decreases b,
{
    if b <= 0 {
        0
    } else {
        todos_before(s, b - 1) + if is_todo(s, b - 1) {
            1nat
        } else {
            0nat
        }
    }
}

/// The number of todo records.
pub open spec fn todo_count(s: Seq<LineSpec>) -> nat {
    todos_before(s, s.len() as int)
}

proof fn lemma_before_gap(s: Seq<LineSpec>, a: int, b: int)
    requires
        0 <= a <= b,
        forall|i: int| a <= i < b ==> !is_todo(s, i),
    ensures
        todos_before(s, b) == todos_before(s, a),
    decreases b - a,
{
    if b > a {
        lemma_before_gap(s, a, b - 1);
    }
}

proof fn lemma_before_mono(s: Seq<LineSpec>, a: int, b: int)
    requires
        0 <= a <= b,
    ensures
        todos_before(s, a) <= todos_before(s, b),
    decreases b - a,
{
    if b > a {
        lemma_before_mono(s, a, b - 1);
    }
}

/// A todo record at `a` counts before every later index.
proof fn lemma_before_strict(s: Seq<LineSpec>, a: int, b: int)
    requires
        0 <= a < b,
        is_todo(s, a),
    ensures
        todos_before(s, a) + 1 <= todos_before(s, b),
{
    lemma_before_mono(s, a + 1, b);
}

proof fn lemma_ahead(j: int, k: int, n: int)
    requires
        0 <= j < n,
        0 <= k <= n,
    ensures
        ahead(j, k, n) == if j + k < n {
            j + k
        } else {
            j + k - n
        },
{
    if j + k < n {
        lemma_small_mod((j + k) as nat, n as nat);
    } else {
        lemma_mod_add_multiples_vanish(j + k - n, n);
        lemma_small_mod((j + k - n) as nat, n as nat);
    }
}

/// From a todo record, `next` moves to the todo record of the following rank,
/// going round.
proof fn lemma_next_rank(s: Seq<LineSpec>, j: int)
    requires
        is_todo(s, j),
    ensures
        is_todo(s, next_index(s, j)),
        todo_count(s) > 0,
        todos_before(s, next_index(s, j)) as int == (todos_before(s, j) + 1) as int % (todo_count(s) as int),
{
    let n = s.len() as int;
    let c = todo_count(s) as int;
    lemma_forward_steps(s, j, 1);
    let f = forward_steps(s, j, 1);
    lemma_ahead(j, f, n);
    lemma_before_strict(s, j, n);
    if j + f < n {
        let p = j + f;
        assert forall|i: int| j + 1 <= i < p implies !is_todo(s, i) by {
            lemma_ahead(j, i - j, n);
        }
        lemma_before_gap(s, j + 1, p);
        lemma_before_strict(s, p, n);
        lemma_small_mod((todos_before(s, j) + 1) as nat, c as nat);
    } else {
        let p = j + f - n;
        assert forall|i: int| j + 1 <= i < n implies !is_todo(s, i) by {
            lemma_ahead(j, i - j, n);
        }
        assert forall|i: int| 0 <= i < p implies !is_todo(s, i) by {
            lemma_ahead(j, i + n - j, n);
        }
        lemma_before_gap(s, j + 1, n);
        lemma_before_gap(s, 0, p);
        lemma_mod_self_0(c);
        if f == n {
            assert(p == j);
        }
    }
}

/// Todo records of equal rank are the same record.
proof fn lemma_rank_injective(s: Seq<LineSpec>, a: int, b: int)
    requires
        is_todo(s, a),
        is_todo(s, b),
        todos_before(s, a) == todos_before(s, b),
    ensures
        a == b,
{
    if a < b {
        lemma_before_strict(s, a, b);
    } else if b < a {
        lemma_before_strict(s, b, a);
    }
}

proof fn lemma_next_iter_rank(s: Seq<LineSpec>, start: int, k: nat)
    requires
        is_todo(s, start),
    ensures
        is_todo(s, next_iter(s, start, k)),
        todo_count(s) > 0,
        todos_before(s, next_iter(s, start, k)) as int == (todos_before(s, start) + k) as int % (
        todo_count(s) as int),
    decreases k,
{
    let c = todo_count(s) as int;
    lemma_before_strict(s, start, s.len() as int);
    if k == 0 {
        lemma_small_mod(todos_before(s, start), c as nat);
    } else {
        lemma_next_iter_rank(s, start, (k - 1) as nat);
        let prev = next_iter(s, start, (k - 1) as nat);
        lemma_next_rank(s, prev);
        lemma_add_mod_noop_right(1, todos_before(s, start) + k - 1, c);
    }
}

/// Where the number of todo records divides the number of records, applying
/// `next` as many times as there are records from a todo record comes back to it.
pub proof fn lemma_next_len_times_returns(s: Seq<LineSpec>, start: int)
    requires
        is_todo(s, start),
        (s.len() as int) % (todo_count(s) as int) == 0,
    ensures
        next_iter(s, start, s.len()) == start,
{
    let n = s.len() as int;
    let c = todo_count(s) as int;
    lemma_next_iter_rank(s, start, s.len());
    lemma_fundamental_div_mod(n, c);
    lemma_mod_multiples_vanish(n / c, todos_before(s, start) as int, c);
    lemma_before_strict(s, start, n);
    lemma_small_mod(todos_before(s, start), c as nat);
    lemma_rank_injective(s, next_iter(s, start, s.len()), start);
}

} // verus!
