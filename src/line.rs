//! One line of an outline document: its kind, how a raw line is classified,
//! and how a record is written back.

use vstd::prelude::*;
use crate::text::{
    chars_of, has_no_newline, has_prefix, is_trimmed, lemma_trim_idempotent, lemma_trim_shape,
    lemma_trimmed_fixed, slice_chars, starts_with, string_of, trim, trim_chars,
};

verus! {

/// The kinds of line that the outline grammar knows.
#[derive(Clone, Copy, Debug, PartialEq, Eq, Structural)]
pub enum LineKind {
    Todo,
    Header1,
    Header2,
    Header3,
    Bullet,
    FreeText,
    Blank,
}

/// The mathematical value of a line record.
pub struct LineSpec {
    pub kind: LineKind,
    pub completed: bool,
    pub text: Seq<char>,
}

/// One line of a document: its content without the structural prefix, its
/// kind, and for a checkbox line whether it is checked.
#[derive(Clone, Debug, PartialEq, Eq)]
pub struct LineRecord {
    pub text: String,
    pub kind: LineKind,
    pub completed: bool,
}

impl View for LineRecord {
    type V = LineSpec;

    open spec fn view(&self) -> LineSpec {
        LineSpec { kind: self.kind, completed: self.completed, text: self.text@ }
    }
}

pub open spec fn open_box() -> Seq<char> {
    seq!['*', ' ', '[', ' ', ']']
}

pub open spec fn checked_box() -> Seq<char> {
    seq!['*', ' ', '[', 'x', ']']
}

pub open spec fn checked_box_upper() -> Seq<char> {
    seq!['*', ' ', '[', 'X', ']']
}

pub open spec fn header1_mark() -> Seq<char> {
    seq!['=', ' ']
}

pub open spec fn header2_mark() -> Seq<char> {
    seq!['=', '=', ' ']
}

pub open spec fn header3_mark() -> Seq<char> {
    seq!['=', '=', '=', ' ']
}

pub open spec fn bullet_mark() -> Seq<char> {
    seq!['*', ' ']
}

/// The record of a line that is already trimmed; the first rule that matches wins.
pub open spec fn classify_trimmed(t: Seq<char>) -> LineSpec {
    if starts_with(t, open_box()) {
        LineSpec { kind: LineKind::Todo, completed: false, text: trim(t.skip(5)) }
    } else if starts_with(t, checked_box()) || starts_with(t, checked_box_upper()) {
        LineSpec { kind: LineKind::Todo, completed: true, text: trim(t.skip(5)) }
    } else if starts_with(t, header3_mark()) {
        LineSpec { kind: LineKind::Header3, completed: false, text: t.skip(4) }
    } else if starts_with(t, header2_mark()) {
        LineSpec { kind: LineKind::Header2, completed: false, text: t.skip(3) }
    } else if starts_with(t, header1_mark()) {
        LineSpec { kind: LineKind::Header1, completed: false, text: t.skip(2) }
    } else if starts_with(t, bullet_mark()) {
        LineSpec { kind: LineKind::Bullet, completed: false, text: t.skip(2) }
    } else if t.len() == 0 {
        LineSpec { kind: LineKind::Blank, completed: false, text: Seq::empty() }
    } else {
        LineSpec { kind: LineKind::FreeText, completed: false, text: t }
    }
}

/// The record of one raw line.
pub open spec fn classify(line: Seq<char>) -> LineSpec {
    classify_trimmed(trim(line))
}

/// The line (without its line break) that a record is written as.
pub open spec fn render(r: LineSpec) -> Seq<char> {
    match r.kind {
        LineKind::Todo => if r.completed {
            checked_box().push(' ') + r.text
        } else {
            open_box().push(' ') + r.text
        },
        LineKind::Header1 => header1_mark() + r.text,
        LineKind::Header2 => header2_mark() + r.text,
        LineKind::Header3 => header3_mark() + r.text,
        LineKind::Bullet => bullet_mark() + r.text,
        LineKind::FreeText => r.text,
        LineKind::Blank => Seq::empty(),
    }
}

/// Only `Todo` records carry a `completed` flag.
pub open spec fn flag_only_on_todo(r: LineSpec) -> bool {
    r.kind != LineKind::Todo ==> !r.completed
}

impl LineRecord {
    /// A new, unchecked todo record.
    pub fn todo(text: String) -> (r: LineRecord)
        ensures
            r.kind == LineKind::Todo,
            !r.completed,
            r.text@ == text@,
    {
        LineRecord { text, kind: LineKind::Todo, completed: false }
    }
}

fn record_of(text: &Vec<char>, kind: LineKind, completed: bool) -> (r: LineRecord)
    ensures
        r@ == (LineSpec { kind, completed, text: text@ }),
{
    LineRecord { text: string_of(text), kind, completed }
}

fn rest_after(t: &Vec<char>, k: usize) -> (r: Vec<char>)
    requires
        k <= t@.len(),
    ensures
        r@ == t@.skip(k as int),
{
    let r = slice_chars(t, k, t.len());
    proof {
        assert(r@ =~= t@.skip(k as int));
    }
    r
}

/// Classifies one raw line; this never fails.
pub fn classify_chars(line: &Vec<char>) -> (r: LineRecord)
    ensures
        r@ == classify(line@),
{
    let t = trim_chars(line);
    let open = vec!['*', ' ', '[', ' ', ']'];
    let checked = vec!['*', ' ', '[', 'x', ']'];
    let checked_upper = vec!['*', ' ', '[', 'X', ']'];
    let h3 = vec!['=', '=', '=', ' '];
    let h2 = vec!['=', '=', ' '];
    let h1 = vec!['=', ' '];
    let bullet = vec!['*', ' '];
    proof {
        assert(open@ =~= open_box());
        assert(checked@ =~= checked_box());
        assert(checked_upper@ =~= checked_box_upper());
        assert(h3@ =~= header3_mark());
        assert(h2@ =~= header2_mark());
        assert(h1@ =~= header1_mark());
        assert(bullet@ =~= bullet_mark());
    }
    if has_prefix(&t, &open) {
        record_of(&trim_chars(&rest_after(&t, 5)), LineKind::Todo, false)
    } else if has_prefix(&t, &checked) || has_prefix(&t, &checked_upper) {
        record_of(&trim_chars(&rest_after(&t, 5)), LineKind::Todo, true)
    } else if has_prefix(&t, &h3) {
        record_of(&rest_after(&t, 4), LineKind::Header3, false)
    } else if has_prefix(&t, &h2) {
        record_of(&rest_after(&t, 3), LineKind::Header2, false)
    } else if has_prefix(&t, &h1) {
        record_of(&rest_after(&t, 2), LineKind::Header1, false)
    } else if has_prefix(&t, &bullet) {
        record_of(&rest_after(&t, 2), LineKind::Bullet, false)
    } else if t.len() == 0 {
        proof {
            assert(t@ =~= Seq::<char>::empty());
        }
        record_of(&t, LineKind::Blank, false)
    } else {
        record_of(&t, LineKind::FreeText, false)
    }
}

/// Classifies one raw line of text; this never fails.
pub fn classify_line(line: &str) -> (r: LineRecord)
    ensures
        r@ == classify(line@),
{
    classify_chars(&chars_of(line))
}

/// Appends `s` to `out`.
pub fn push_all(out: &mut Vec<char>, s: &Vec<char>)
    ensures
        final(out)@ == old(out)@ + s@,
{
    let mut i: usize = 0;
    while i < s.len()
        invariant
            i <= s@.len(),
            out@ == old(out)@ + s@.subrange(0, i as int),
        decreases s@.len() - i,
    {
        out.push(s[i]);
        i = i + 1;
        proof {
            assert(out@ =~= old(out)@ + s@.subrange(0, i as int));
        }
    }
    proof {
        assert(s@.subrange(0, s@.len() as int) =~= s@);
    }
}

/// Appends to `out` the line that `r` is written as, without its line break.
pub fn render_into(out: &mut Vec<char>, r: &LineRecord)
    ensures
        final(out)@ == old(out)@ + render(r@),
{
    let mark: Vec<char> = match r.kind {
        LineKind::Todo => if r.completed {
            vec!['*', ' ', '[', 'x', ']', ' ']
        } else {
            vec!['*', ' ', '[', ' ', ']', ' ']
        },
        LineKind::Header1 => vec!['=', ' '],
        LineKind::Header2 => vec!['=', '=', ' '],
        LineKind::Header3 => vec!['=', '=', '=', ' '],
        LineKind::Bullet => vec!['*', ' '],
        LineKind::FreeText => Vec::new(),
        LineKind::Blank => Vec::new(),
    };
    push_all(out, &mark);
    if r.kind != LineKind::Blank {
        push_all(out, &chars_of(r.text.as_str()));
    }
    proof {
        let v = r@;
        match v.kind {
            LineKind::Todo => if v.completed {
                assert(mark@ =~= checked_box().push(' '));
            } else {
                assert(mark@ =~= open_box().push(' '));
            },
            LineKind::Header1 => assert(mark@ =~= header1_mark()),
            LineKind::Header2 => assert(mark@ =~= header2_mark()),
            LineKind::Header3 => assert(mark@ =~= header3_mark()),
            LineKind::Bullet => assert(mark@ =~= bullet_mark()),
            LineKind::FreeText => assert(mark@ + v.text =~= v.text),
            LineKind::Blank => assert(old(out)@ + mark@ =~= old(out)@),
        }
        assert(final(out)@ =~= old(out)@ + render(v));
    }
}

/// The line that a record is written as, without its line break.
pub fn render_line(r: &LineRecord) -> (s: String)
    ensures
        s@ == render(r@),
{
    let mut out: Vec<char> = Vec::new();
    render_into(&mut out, r);
    proof {
        assert(out@ =~= render(r@));
    }
    string_of(&out)
}

/// A checkbox line re-read: the box, a space, then trimmed text.
proof fn lemma_box_round_trip(b: Seq<char>, u: Seq<char>)
    requires
        b.len() == 5,
        b[0] == '*',
        b[4] == ']',
        is_trimmed(u),
    ensures
        trim(b.push(' ') + u) == (if u.len() == 0 {
            b
        } else {
            b.push(' ') + u
        }),
        trim(trim(b.push(' ') + u).skip(5)) == u,
{
    let s = b.push(' ') + u;
    if u.len() == 0 {
        assert(s =~= b.push(' '));
        assert(crate::text::trim_start(s) == s);
        assert(s.drop_last() =~= b);
        assert(crate::text::trim_end(b) == b);
        assert(b.skip(5) =~= Seq::<char>::empty());
        assert(trim(b.skip(5)) =~= u);
    } else {
        assert(s.last() == u.last());
        lemma_trimmed_fixed(s);
        let rest = s.skip(5);
        assert(rest.drop_first() =~= u);
        assert(crate::text::trim_start(rest) == crate::text::trim_start(u));
        lemma_trimmed_fixed(u);
    }
}

/// Writing a record of a line and reading it back gives the same record;
/// such a record has no line break and no flag unless it is a todo.
pub proof fn lemma_classify_render(line: Seq<char>)
    ensures
        classify(render(classify(line))) == classify(line),
        has_no_newline(line) ==> has_no_newline(render(classify(line))),
        flag_only_on_todo(classify(line)),
{
    let t = trim(line);
    let r = classify(line);
    lemma_trim_shape(line);
    lemma_trim_idempotent(line);
    if r.kind == LineKind::Todo {
        let rest = t.skip(5);
        lemma_trim_shape(rest);
        let b = if r.completed {
            checked_box()
        } else {
            open_box()
        };
        assert(b[4] == ']');
        lemma_box_round_trip(b, r.text);
        let s = render(r);
        let ts = trim(s);
        assert(ts.subrange(0, 5) =~= b);
        if r.completed {
            assert(ts.subrange(0, 5) != open_box()) by {
                assert(ts.subrange(0, 5)[3] != open_box()[3]);
            }
        }
        assert(classify(s) == r);
        if has_no_newline(line) {
            assert(has_no_newline(rest));
            assert forall|i: int| 0 <= i < s.len() implies s[i] != '\n' by {
                if i >= 6 {
                    assert(s[i] == r.text[i - 6]);
                }
            }
        }
    } else {
        match r.kind {
            LineKind::Header3 => assert(render(r) =~= t),
            LineKind::Header2 => assert(render(r) =~= t),
            LineKind::Header1 => assert(render(r) =~= t),
            LineKind::Bullet => assert(render(r) =~= t),
            LineKind::Blank => assert(render(r) =~= t),
            _ => {},
        }
        assert(render(r) == t);
    }
}

} // verus!
