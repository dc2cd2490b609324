//! A whole outline document: splitting text into lines, parsing every line,
//! and writing the records back as text.

use vstd::prelude::*;
use crate::line::{
    classify, classify_chars, flag_only_on_todo, lemma_classify_render, render, render_into,
    LineKind, LineRecord, LineSpec,
};
use crate::text::{chars_of, has_no_newline, string_of};

verus! {

/// The pieces of `s` between line breaks; there is always one more piece
/// than there are line breaks.
pub open spec fn pieces(s: Seq<char>) -> Seq<Seq<char>>
    decreases s.len(),
{
    if s.len() == 0 {
        seq![Seq::empty()]
    } else {
        let p = pieces(s.drop_last());
        if s.last() == '\n' {
            p.push(Seq::empty())
        } else {
            p.update(p.len() - 1, p.last().push(s.last()))
        }
    }
}

/// The lines of `s`: every piece, except an empty one after the last line break.
pub open spec fn lines(s: Seq<char>) -> Seq<Seq<char>> {
    let p = pieces(s);
    if p.last().len() == 0 {
        p.drop_last()
    } else {
        p
    }
}

/// The records of a document text, one per line.
pub open spec fn parse_spec(s: Seq<char>) -> Seq<LineSpec> {
    lines(s).map_values(|l: Seq<char>| classify(l))
}

/// The text of a sequence of records: each written as one line ended by a line break.
pub open spec fn serialize_spec(rs: Seq<LineSpec>) -> Seq<char>
    decreases rs.len(),
{
    if rs.len() == 0 {
        Seq::empty()
    } else {
        serialize_spec(rs.drop_last()) + render(rs.last()).push('\n')
    }
}

/// The values of a sequence of records.
pub open spec fn views(items: Seq<LineRecord>) -> Seq<LineSpec> {
    items.map_values(|r: LineRecord| r@)
}

pub proof fn lemma_pieces_len(s: Seq<char>)
    ensures
        pieces(s).len() >= 1,
        forall|j: int| 0 <= j < pieces(s).len() ==> has_no_newline(#[trigger] pieces(s)[j]),
    decreases s.len(),
{
    if s.len() > 0 {
        lemma_pieces_len(s.drop_last());
        let p = pieces(s.drop_last());
        if s.last() != '\n' {
            assert forall|j: int| 0 <= j < pieces(s).len() implies has_no_newline(
                #[trigger] pieces(s)[j],
            ) by {
                if j == p.len() - 1 {
                    assert(has_no_newline(p[j]));
                    assert(pieces(s)[j] == p[j].push(s.last()));
                } else {
                    assert(pieces(s)[j] == p[j]);
                }
            }
        } else {
            assert forall|j: int| 0 <= j < pieces(s).len() implies has_no_newline(
                #[trigger] pieces(s)[j],
            ) by {
                if j < p.len() {
                    assert(pieces(s)[j] == p[j]);
                }
            }
        }
    }
}

/// Text without a line break extends the last piece.
proof fn lemma_pieces_extend(a: Seq<char>, b: Seq<char>)
    requires
        has_no_newline(b),
    ensures
        pieces(a + b) == pieces(a).update(pieces(a).len() - 1, pieces(a).last() + b),
    decreases b.len(),
{
    lemma_pieces_len(a);
    if b.len() == 0 {
        assert(a + b =~= a);
        assert(pieces(a).last() + b =~= pieces(a).last());
        assert(pieces(a).update(pieces(a).len() - 1, pieces(a).last()) =~= pieces(a));
    } else {
        let b0 = b.drop_last();
        assert(has_no_newline(b0)) by {
            assert forall|i: int| 0 <= i < b0.len() implies b0[i] != '\n' by {
                assert(b0[i] == b[i]);
            }
        }
        lemma_pieces_extend(a, b0);
        assert((a + b).drop_last() =~= a + b0);
        assert((a + b).last() == b.last());
        assert((pieces(a).last() + b0).push(b.last()) =~= pieces(a).last() + b);
        assert(pieces(a + b) =~= pieces(a).update(pieces(a).len() - 1, pieces(a).last() + b));
    }
}

/// The text of records that hold no line break splits back into their lines.
proof fn lemma_serialize_pieces(rs: Seq<LineSpec>)
    requires
        forall|i: int| 0 <= i < rs.len() ==> has_no_newline(#[trigger] render(rs[i])),
    ensures
        pieces(serialize_spec(rs)) == rs.map_values(|r: LineSpec| render(r)).push(Seq::empty()),
    decreases rs.len(),
{
    if rs.len() == 0 {
        assert(pieces(serialize_spec(rs)) =~= rs.map_values(|r: LineSpec| render(r)).push(
            Seq::empty(),
        ));
    } else {
        let init = rs.drop_last();
        assert forall|i: int| 0 <= i < init.len() implies has_no_newline(
            #[trigger] render(init[i]),
        ) by {
            assert(init[i] == rs[i]);
        }
        lemma_serialize_pieces(init);
        let a = serialize_spec(init);
        let line = render(rs.last());
        assert(has_no_newline(render(rs[rs.len() - 1])));
        lemma_pieces_extend(a, line);
        assert(a + line.push('\n') =~= (a + line).push('\n'));
        assert((a + line).push('\n').drop_last() =~= a + line);
        assert(pieces(serialize_spec(rs)) =~= rs.map_values(|r: LineSpec| render(r)).push(
            Seq::empty(),
        ));
    }
}

/// Reading the text of a document gives back its records, up to normalization:
/// parsing what was written from parsed text gives the same records.
pub proof fn lemma_parse_serialize_parse(x: Seq<char>)
    ensures
        parse_spec(serialize_spec(parse_spec(x))) == parse_spec(x),
{
    let rs = parse_spec(x);
    lemma_pieces_len(x);
    assert forall|i: int| 0 <= i < rs.len() implies has_no_newline(#[trigger] render(rs[i])) by {
        assert(has_no_newline(pieces(x)[i]));
        lemma_classify_render(lines(x)[i]);
    }
    lemma_serialize_pieces(rs);
    let m = rs.map_values(|r: LineSpec| render(r));
    assert(lines(serialize_spec(rs)) =~= m);
    assert forall|i: int| 0 <= i < rs.len() implies #[trigger] parse_spec(serialize_spec(rs))[i]
        == rs[i] by {
        lemma_classify_render(lines(x)[i]);
    }
    assert(parse_spec(serialize_spec(rs)) =~= rs);
}

/// Serialization is idempotent from the second round on:
/// `serialize(parse(serialize(parse(x)))) == serialize(parse(x))`.
pub proof fn lemma_round_trip_idempotent(x: Seq<char>)
    ensures
        serialize_spec(parse_spec(serialize_spec(parse_spec(x)))) == serialize_spec(
            parse_spec(x),
        ),
{
    lemma_parse_serialize_parse(x);
}

/// The records of a document text, one per line; this never fails.
pub fn parse(source: &str) -> (items: Vec<LineRecord>)
    ensures
        views(items@) == parse_spec(source@),
        forall|i: int| 0 <= i < items@.len() ==> flag_only_on_todo(#[trigger] items@[i]@),
{
    let cs = chars_of(source);
    let mut items: Vec<LineRecord> = Vec::new();
    let mut cur: Vec<char> = Vec::new();
    let mut i: usize = 0;
    proof {
        assert(cs@.subrange(0, 0) =~= Seq::<char>::empty());
        assert(cur@ =~= Seq::<char>::empty());
    }
    while i < cs.len()
        invariant
            i <= cs@.len(),
            pieces(cs@.subrange(0, i as int)).len() == items@.len() + 1,
            pieces(cs@.subrange(0, i as int)).last() == cur@,
            forall|j: int|
                0 <= j < items@.len() ==> #[trigger] items@[j]@ == classify(
                    pieces(cs@.subrange(0, i as int))[j],
                ),
        decreases cs@.len() - i,
    {
        let ghost before = cs@.subrange(0, i as int);
        let c = cs[i];
        proof {
            assert(cs@.subrange(0, i + 1).drop_last() =~= before);
        }
        if c == '\n' {
            let r = classify_chars(&cur);
            items.push(r);
            cur = Vec::new();
            proof {
                assert(cur@ =~= Seq::<char>::empty());
            }
        } else {
            cur.push(c);
        }
        i = i + 1;
        proof {
            let now = cs@.subrange(0, i as int);
            assert forall|j: int| 0 <= j < items@.len() implies #[trigger] items@[j]@ == classify(
                pieces(now)[j],
            ) by {
                if j < items@.len() - 1 || c != '\n' {
                    assert(pieces(now)[j] == pieces(before)[j]);
                }
            }
        }
    }
    proof {
        assert(cs@.subrange(0, cs@.len() as int) =~= cs@);
    }
    if cur.len() > 0 {
        let r = classify_chars(&cur);
        items.push(r);
    }
    proof {
        assert(views(items@) =~= parse_spec(source@));
        assert forall|i: int| 0 <= i < items@.len() implies flag_only_on_todo(
            #[trigger] items@[i]@,
        ) by {
            lemma_classify_render(lines(source@)[i]);
            assert(items@[i]@ == views(items@)[i]);
        }
    }
    items
}

/// The text of a sequence of records, one line each, every line ended by a line break.
pub fn serialize(items: &Vec<LineRecord>) -> (s: String)
    ensures
        s@ == serialize_spec(views(items@)),
{
    let mut out: Vec<char> = Vec::new();
    let mut i: usize = 0;
    proof {
        assert(views(items@.subrange(0, 0)) =~= Seq::<LineSpec>::empty());
    }
    while i < items.len()
        invariant
            i <= items@.len(),
            out@ == serialize_spec(views(items@.subrange(0, i as int))),
        decreases items@.len() - i,
    {
        render_into(&mut out, &items[i]);
        out.push('\n');
        i = i + 1;
        proof {
            let vs = views(items@.subrange(0, i as int));
            assert(vs.drop_last() =~= views(items@.subrange(0, i - 1)));
            assert(vs.last() == items@[i - 1]@);
            assert(out@ =~= serialize_spec(vs));
        }
    }
    proof {
        assert(items@.subrange(0, items@.len() as int) =~= items@);
    }
    string_of(&out)
}

/// An outline document: its records in order, the path it is stored at and
/// the name it is shown under.
pub struct Document {
    pub items: Vec<LineRecord>,
    pub list_path: String,
    pub list_name: String,
}

impl Document {
    /// The document stored at `list_path` whose text is `source`.
    pub fn from_text(list_path: String, list_name: String, source: &str) -> (d: Document)
        ensures
            views(d.items@) == parse_spec(source@),
            forall|i: int| 0 <= i < d.items@.len() ==> flag_only_on_todo(#[trigger] d.items@[i]@),
            d.list_path@ == list_path@,
            d.list_name@ == list_name@,
    {
        Document { items: parse(source), list_path, list_name }
    }

    /// The text the document is stored as.
    pub fn to_text(&self) -> (s: String)
        ensures
            s@ == serialize_spec(views(self.items@)),
    {
        serialize(&self.items)
    }

    /// Adds an unchecked todo with the given text at the end.
    pub fn append_todo(&mut self, text: String)
        ensures
            views(final(self).items@) == views(old(self).items@).push(
                LineSpec { kind: LineKind::Todo, completed: false, text: text@ },
            ),
            final(self).list_path == old(self).list_path,
            final(self).list_name == old(self).list_name,
    {
        self.items.push(LineRecord::todo(text));
        proof {
            assert(views(self.items@) =~= views(old(self).items@).push(
                LineSpec { kind: LineKind::Todo, completed: false, text: text@ },
            ));
        }
    }
}

} // verus!
