//! Splitting a string into plain and redacted chunks by its remarks, and
//! joining chunks back into a string with remarks.
//!
//! Offsets are byte offsets into the UTF-8 encoding of the string; the
//! models below work on those bytes.
use vstd::prelude::*;
use vstd::string::*;
use vstd::utf8::*;

use crate::types::{Remark, RemarkType, RemarkView};

verus! {

broadcast use vstd::seq::group_seq_axioms;

/// A piece of annotated text.
#[derive(Clone, Debug, PartialEq)]
pub enum Chunk {
    /// Text that no rule touched.
    Text { text: String },
    /// Text that a rule produced, with the rule and the kind of change.
    Redaction { text: String, rule_id: String, ty: RemarkType },
}

/// The mathematical value of a chunk; its text is given as UTF-8 bytes.
pub enum ChunkView {
    Text { text: Seq<u8> },
    Redaction { text: Seq<u8>, rule_id: Seq<char>, ty: RemarkType },
}

impl ChunkView {
    pub open spec fn bytes(self) -> Seq<u8> {
        match self {
            ChunkView::Text { text } => text,
            ChunkView::Redaction { text, .. } => text,
        }
    }
}

impl View for Chunk {
    type V = ChunkView;

    open spec fn view(&self) -> ChunkView {
        match self {
            Chunk::Text { text } => ChunkView::Text { text: encode_utf8(text@) },
            Chunk::Redaction { text, rule_id, ty } => ChunkView::Redaction {
                text: encode_utf8(text@),
                rule_id: rule_id@,
                ty: *ty,
            },
        }
    }
}

impl Chunk {
    /// The characters of this chunk's text.
    pub open spec fn text_chars(&self) -> Seq<char> {
        match self {
            Chunk::Text { text } => text@,
            Chunk::Redaction { text, .. } => text@,
        }
    }

    /// The text of this chunk.
    pub fn as_str(&self) -> (r: &str)
        ensures
            r@ == self.text_chars(),
            r.spec_bytes() == self@.bytes(),
    {
        match self {
            Chunk::Text { text } => text.as_str(),
            Chunk::Redaction { text, .. } => text.as_str(),
        }
    }

    /// Length of the text of this chunk in bytes.
    pub fn len(&self) -> (r: usize)
        ensures
            r == self@.bytes().len() as usize,
    {
        self.as_str().len()
    }

    /// The number of characters in the text of this chunk.
    pub fn chars(&self) -> (r: usize)
        ensures
            r == self.text_chars().len(),
    {
        self.as_str().unicode_len()
    }

    /// Whether the text of this chunk is empty.
    pub fn is_empty(&self) -> (r: bool)
        ensures
            r <==> self.text_chars().len() == 0,
    {
        self.as_str().is_empty()
    }
}

/// The views of a sequence of chunks.
pub open spec fn chunk_views(cs: Seq<Chunk>) -> Seq<ChunkView> {
    cs.map_values(|c: Chunk| c@)
}

/// The views of a sequence of remarks.
pub open spec fn remark_views(rs: Seq<Remark>) -> Seq<RemarkView> {
    rs.map_values(|r: Remark| r@)
}

/// `text[from..to]` exists: the range lies inside `text` and both ends are
/// character boundaries.
pub open spec fn slice_ok(text: Seq<u8>, from: int, to: int) -> bool {
    0 <= from <= to <= text.len() && is_char_boundary(text, from) && is_char_boundary(text, to)
}

/// The chunks of `text` from byte `pos` on, by the remarks `rs`.
///
/// A remark without a range is skipped. Before each ranged remark comes the
/// plain text since `pos`, if any; then the redacted piece; then `pos` moves to
/// its end. Plain text after the last remark closes the sequence. Where a
/// piece cannot be cut from `text`, the sequence ends with what was cut before.
pub open spec fn split_from(text: Seq<u8>, rs: Seq<RemarkView>, pos: int) -> Seq<ChunkView>
    decreases rs.len(),
{
    if rs.len() == 0 {
        if pos < text.len() && slice_ok(text, pos, text.len() as int) {
            seq![ChunkView::Text { text: text.subrange(pos, text.len() as int) }]
        } else {
            seq![]
        }
    } else {
        match rs[0].range {
            None => split_from(text, rs.drop_first(), pos),
            Some(range) => {
                let from = range.0 as int;
                let to = range.1 as int;
                let lead = if from > pos {
                    seq![ChunkView::Text { text: text.subrange(pos, from) }]
                } else {
                    seq![]
                };
                if from > pos && !slice_ok(text, pos, from) {
                    seq![]
                } else if !slice_ok(text, from, to) {
                    lead
                } else {
                    lead + seq![
                        ChunkView::Redaction {
                            text: text.subrange(from, to),
                            rule_id: rs[0].rule_id,
                            ty: rs[0].ty,
                        },
                    ] + split_from(text, rs.drop_first(), to)
                }
            },
        }
    }
}

/// The bytes of all chunks, in order.
pub open spec fn joined_bytes(cs: Seq<ChunkView>) -> Seq<u8>
    decreases cs.len(),
{
    if cs.len() == 0 {
        seq![]
    } else {
        cs[0].bytes() + joined_bytes(cs.drop_first())
    }
}

/// The remarks for the redacted chunks of `cs`, whose first byte lies at
/// `pos`: one per redaction, over the bytes that the chunk covers.
pub open spec fn joined_remarks(cs: Seq<ChunkView>, pos: int) -> Seq<RemarkView>
    decreases cs.len(),
{
    if cs.len() == 0 {
        seq![]
    } else {
        let end = pos + cs[0].bytes().len();
        let rest = joined_remarks(cs.drop_first(), end);
        match cs[0] {
            ChunkView::Text { .. } => rest,
            ChunkView::Redaction { rule_id, ty, .. } => seq![
                RemarkView { ty, rule_id, range: Some((pos as usize, end as usize)) },
            ] + rest,
        }
    }
}

/// Relies on `str::get` with a byte range: it gives the slice when both ends
/// are character boundaries and `from <= to <= len`, and `None` otherwise.
#[verifier::external_body]
fn slice_of<'a>(text: &'a str, from: usize, to: usize) -> (r: Option<&'a str>)
    ensures
        r is Some <==> slice_ok(text.spec_bytes(), from as int, to as int),
        r matches Some(p) ==> p.spec_bytes() == text.spec_bytes().subrange(from as int, to as int),
{
    text.get(from..to)
}

/// Cuts `text` into chunks by `remarks`.
///
/// Remarks without a range give no chunk. Where a remark's range, or the text
/// before it, cannot be cut from `text` (out of bounds, reversed, or inside a
/// character), the result ends with the chunks made before it.
pub fn split_chunks(text: &str, remarks: &[Remark]) -> (r: Vec<Chunk>)
    requires
        text.spec_bytes().len() <= usize::MAX,
    ensures
        chunk_views(r@) == split_from(text.spec_bytes(), remark_views(remarks@), 0),
{
    let ghost tb = text.spec_bytes();
    let ghost rs = remark_views(remarks@);
    let mut rv: Vec<Chunk> = Vec::new();
    let mut pos: usize = 0;
    let mut i: usize = 0;
    assert(rs.skip(0) =~= rs);
    assert(chunk_views(rv@) + split_from(tb, rs, 0) =~= split_from(tb, rs, 0));
    while i < remarks.len()
        invariant
            i <= remarks.len(),
            rs == remark_views(remarks@),
            tb == text.spec_bytes(),
            tb.len() <= usize::MAX,
            chunk_views(rv@) + split_from(tb, rs.skip(i as int), pos as int) == split_from(tb, rs, 0),
        decreases remarks.len() - i,
    {
        let remark = &remarks[i];
        proof {
            assert(rs.skip(i as int).drop_first() =~= rs.skip(i + 1));
            assert(rs.skip(i as int)[0] == remark@);
        }
        match remark.range {
            None => {},
            Some(range) => {
                let from = range.0;
                let to = range.1;
                let ghost lead = if from > pos {
                    seq![ChunkView::Text { text: tb.subrange(pos as int, from as int) }]
                } else {
                    seq![]
                };
                let ghost before = chunk_views(rv@);
                if from > pos {
                    match slice_of(text, pos, from) {
                        Some(piece) => {
                            rv.push(Chunk::Text { text: piece.to_owned() });
                        },
                        None => {
                            assert(chunk_views(rv@) =~= chunk_views(rv@) + seq![]);
                            return rv;
                        },
                    }
                }
                assert(chunk_views(rv@) =~= before + lead);
                match slice_of(text, from, to) {
                    Some(piece) => {
                        rv.push(
                            Chunk::Redaction {
                                text: piece.to_owned(),
                                rule_id: remark.rule_id.clone(),
                                ty: remark.ty,
                            },
                        );
                        assert(chunk_views(rv@) =~= before + lead + seq![
                            ChunkView::Redaction {
                                text: tb.subrange(from as int, to as int),
                                rule_id: rs.skip(i as int)[0].rule_id,
                                ty: rs.skip(i as int)[0].ty,
                            },
                        ]);
                    },
                    None => {
                        return rv;
                    },
                }
                pos = to;
            },
        }
        i += 1;
    }
    assert(rs.skip(i as int).len() == 0);
    if pos < text.len() {
        match slice_of(text, pos, text.len()) {
            Some(piece) => {
                let ghost before = chunk_views(rv@);
                rv.push(Chunk::Text { text: piece.to_owned() });
                assert(chunk_views(rv@) =~= before + seq![
                    ChunkView::Text { text: tb.subrange(pos as int, tb.len() as int) },
                ]);
            },
            None => {},
        }
    }
    assert(chunk_views(rv@) =~= chunk_views(rv@) + seq![]);
    rv
}

/// The UTF-8 encoding of a concatenation is the concatenation of the encodings.
pub proof fn lemma_encode_concat(a: Seq<char>, b: Seq<char>)
    ensures
        encode_utf8(a + b) == encode_utf8(a) + encode_utf8(b),
    decreases a.len(),
{
    if a.len() == 0 {
        assert(a + b =~= b);
    } else {
        assert((a + b).drop_first() =~= a.drop_first() + b);
        lemma_encode_concat(a.drop_first(), b);
    }
}

/// Concatenates the texts of `chunks` and makes a remark for each redacted
/// chunk, over the byte range that its text takes in the result.
pub fn join_chunks(chunks: Vec<Chunk>) -> (r: (String, Vec<Remark>))
    requires
        joined_bytes(chunk_views(chunks@)).len() <= usize::MAX,
    ensures
        encode_utf8(r.0@) == joined_bytes(chunk_views(chunks@)),
        remark_views(r.1@) == joined_remarks(chunk_views(chunks@), 0),
{
    let ghost cs = chunk_views(chunks@);
    let mut rv = String::new();
    let mut remarks: Vec<Remark> = Vec::new();
    let mut pos: usize = 0;
    let mut i: usize = 0;
    assert(encode_utf8(rv@) =~= seq![]);
    assert(cs.skip(0) =~= cs);
    while i < chunks.len()
        invariant
            cs == chunk_views(chunks@),
            i <= chunks.len(),
            encode_utf8(rv@) + joined_bytes(cs.skip(i as int)) == joined_bytes(cs),
            pos == encode_utf8(rv@).len(),
            remark_views(remarks@) + joined_remarks(cs.skip(i as int), pos as int)
                == joined_remarks(cs, 0),
            joined_bytes(cs).len() <= usize::MAX,
        decreases chunks.len() - i,
    {
        let chunk = &chunks[i];
        proof {
            assert(cs.skip(i as int).drop_first() =~= cs.skip(i + 1));
            assert(cs.skip(i as int)[0] == chunk@);
        }
        let ghost before = rv@;
        let ghost before_remarks = remark_views(remarks@);
        let new_pos = pos + chunk.len();
        rv.append(chunk.as_str());
        proof {
            lemma_encode_concat(before, chunk.text_chars());
        }
        match chunk {
            Chunk::Redaction { rule_id, ty, .. } => {
                remarks.push(Remark { ty: *ty, rule_id: rule_id.clone(), range: Some((pos, new_pos)) });
                assert(remark_views(remarks@) =~= before_remarks + seq![
                    RemarkView { ty: *ty, rule_id: rule_id@, range: Some((pos, new_pos)) },
                ]);
            },
            Chunk::Text { .. } => {},
        }
        pos = new_pos;
        i += 1;
    }
    assert(cs.skip(i as int) =~= seq![]);
    assert(encode_utf8(rv@) =~= encode_utf8(rv@) + seq![]);
    assert(remark_views(remarks@) =~= remark_views(remarks@) + seq![]);
    (rv, remarks)
}

/// The remarks of `rs` that have a range, in order.
pub open spec fn ranged(rs: Seq<RemarkView>) -> Seq<RemarkView>
    decreases rs.len(),
{
    if rs.len() == 0 {
        seq![]
    } else if rs[0].range is Some {
        seq![rs[0]] + ranged(rs.drop_first())
    } else {
        ranged(rs.drop_first())
    }
}

/// The ranged remarks of `rs` can all be cut from `text`, in order and
/// without overlap: each starts at or after `pos` and after the end of the
/// ranged remark before it, and ends on a character boundary of `text`.
pub open spec fn remarks_fit(text: Seq<u8>, rs: Seq<RemarkView>, pos: int) -> bool
    decreases rs.len(),
{
    if rs.len() == 0 {
        true
    } else {
        match rs[0].range {
            None => remarks_fit(text, rs.drop_first(), pos),
            Some(range) => pos <= range.0 && slice_ok(text, range.0 as int, range.1 as int)
                && remarks_fit(text, rs.drop_first(), range.1 as int),
        }
    }
}

/// The sum of the byte lengths of the chunks.
pub open spec fn total_len(cs: Seq<ChunkView>) -> int
    decreases cs.len(),
{
    if cs.len() == 0 {
        0
    } else {
        cs[0].bytes().len() + total_len(cs.drop_first())
    }
}

proof fn lemma_end_is_boundary(b: Seq<u8>)
    requires
        valid_utf8(b),
    ensures
        is_char_boundary(b, b.len() as int),
    decreases b.len(),
{
    if b.len() > 0 {
        let p = pop_first_scalar(b);
        assert(p.len() == b.len() - length_of_first_scalar(b));
        lemma_end_is_boundary(p);
    }
}

proof fn lemma_total_len(cs: Seq<ChunkView>)
    ensures
        total_len(cs) == joined_bytes(cs).len(),
    decreases cs.len(),
{
    if cs.len() > 0 {
        lemma_total_len(cs.drop_first());
    }
}

proof fn lemma_split_fitting(text: Seq<u8>, rs: Seq<RemarkView>, pos: int)
    requires
        valid_utf8(text),
        text.len() <= usize::MAX,
        0 <= pos <= text.len(),
        is_char_boundary(text, pos),
        remarks_fit(text, rs, pos),
    ensures
        joined_bytes(split_from(text, rs, pos)) == text.subrange(pos, text.len() as int),
        joined_remarks(split_from(text, rs, pos), pos) == ranged(rs),
    decreases rs.len(),
{
    let n = text.len() as int;
    if rs.len() == 0 {
        lemma_end_is_boundary(text);
        if pos == n {
            assert(text.subrange(pos, n) =~= seq![]);
        } else {
            let cs = split_from(text, rs, pos);
            assert(cs.drop_first() =~= seq![]);
            assert(joined_bytes(cs.drop_first()) == Seq::<u8>::empty());
            assert(text.subrange(pos, n) + seq![] =~= text.subrange(pos, n));
            assert(joined_bytes(cs) == text.subrange(pos, n));
            assert(joined_remarks(cs.drop_first(), n) == Seq::<RemarkView>::empty());
            assert(cs[0] is Text);
            assert(joined_remarks(cs, pos) =~= seq![]);
        }
        assert(ranged(rs) =~= seq![]);
    } else {
        let rest = rs.drop_first();
        match rs[0].range {
            None => {
                lemma_split_fitting(text, rest, pos);
            },
            Some(range) => {
                let from = range.0 as int;
                let to = range.1 as int;
                lemma_split_fitting(text, rest, to);
                let tail = split_from(text, rest, to);
                let red = ChunkView::Redaction {
                    text: text.subrange(from, to),
                    rule_id: rs[0].rule_id,
                    ty: rs[0].ty,
                };
                let cs = split_from(text, rs, pos);
                let after = seq![red] + tail;
                assert(after.drop_first() =~= tail);
                assert(joined_bytes(after) =~= text.subrange(from, n));
                assert(rs[0] == RemarkView {
                    ty: rs[0].ty,
                    rule_id: rs[0].rule_id,
                    range: Some((from as usize, to as usize)),
                });
                assert(joined_remarks(after, from) =~= ranged(rs));
                if from > pos {
                    assert(cs =~= seq![ChunkView::Text { text: text.subrange(pos, from) }] + after);
                    assert(cs.drop_first() =~= after);
                    assert(joined_bytes(cs) =~= text.subrange(pos, n));
                    assert(joined_remarks(cs, pos) == joined_remarks(after, from));
                } else {
                    assert(cs =~= after);
                    assert(joined_bytes(cs) == text.subrange(pos, n));
                    assert(joined_remarks(cs, pos) == ranged(rs));
                }
            },
        }
    }
}

/// Joining the chunks that `split_chunks` makes of a string gives back the
/// string, and exactly its ranged remarks, in order, when those remarks fit
/// the string in order and without overlap.
pub proof fn lemma_join_split_round_trip(s: Seq<char>, rs: Seq<RemarkView>)
    requires
        encode_utf8(s).len() <= usize::MAX,
        remarks_fit(encode_utf8(s), rs, 0),
    ensures
        joined_bytes(split_from(encode_utf8(s), rs, 0)) == encode_utf8(s),
        forall|t: Seq<char>| encode_utf8(t) == joined_bytes(split_from(encode_utf8(s), rs, 0)) ==> t == s,
        joined_remarks(split_from(encode_utf8(s), rs, 0), 0) == ranged(rs),
{
    let b = encode_utf8(s);
    encode_utf8_valid_utf8(s);
    lemma_split_fitting(b, rs, 0);
    assert(b.subrange(0, b.len() as int) =~= b);
    assert forall|t: Seq<char>| encode_utf8(t) == b implies t == s by {
        encode_utf8_decode_utf8(t);
        encode_utf8_decode_utf8(s);
    }
}

/// The chunks of a string, concatenated, are the string byte for byte, when
/// its remarks fit it in order and without overlap.
pub proof fn lemma_split_covers_text(s: Seq<char>, rs: Seq<RemarkView>)
    requires
        encode_utf8(s).len() <= usize::MAX,
        remarks_fit(encode_utf8(s), rs, 0),
    ensures
        joined_bytes(split_from(encode_utf8(s), rs, 0)) == encode_utf8(s),
{
    lemma_join_split_round_trip(s, rs);
}

/// The byte lengths of the chunks of a string add up to the byte length of
/// the string, when its remarks fit it in order and without overlap.
pub proof fn lemma_split_byte_lengths(s: Seq<char>, rs: Seq<RemarkView>)
    requires
        encode_utf8(s).len() <= usize::MAX,
        remarks_fit(encode_utf8(s), rs, 0),
    ensures
        total_len(split_from(encode_utf8(s), rs, 0)) == encode_utf8(s).len(),
{
    lemma_join_split_round_trip(s, rs);
    lemma_total_len(split_from(encode_utf8(s), rs, 0));
}

/// Remarks without a range make no chunk: splitting by `rs` gives what
/// splitting by its ranged remarks alone gives.
pub proof fn lemma_rangeless_remarks_ignored(text: Seq<u8>, rs: Seq<RemarkView>, pos: int)
    ensures
        split_from(text, rs, pos) == split_from(text, ranged(rs), pos),
    decreases rs.len(),
{
    if rs.len() > 0 {
        let rest = rs.drop_first();
        match rs[0].range {
            None => {
                lemma_rangeless_remarks_ignored(text, rest, pos);
            },
            Some(range) => {
                let q = ranged(rs);
                assert(q.drop_first() =~= ranged(rest));
                lemma_rangeless_remarks_ignored(text, rest, range.1 as int);
            },
        }
    }
}

/// The ranged remarks of `rs` are in order and do not overlap: each starts
/// at or after `pos` and after the end of the ranged remark before it, and
/// ends no earlier than it starts.
pub open spec fn ordered_from(rs: Seq<RemarkView>, pos: int) -> bool
    decreases rs.len(),
{
    if rs.len() == 0 {
        true
    } else {
        match rs[0].range {
            None => ordered_from(rs.drop_first(), pos),
            Some(range) => pos <= range.0 <= range.1 && ordered_from(rs.drop_first(), range.1 as int),
        }
    }
}

proof fn lemma_ordered_from_weaken(rs: Seq<RemarkView>, lo: int, hi: int)
    requires
        lo <= hi,
        ordered_from(rs, hi),
    ensures
        ordered_from(rs, lo),
    decreases rs.len(),
{
    if rs.len() > 0 && rs[0].range is None {
        lemma_ordered_from_weaken(rs.drop_first(), lo, hi);
    }
}

/// The remarks that joining makes are in order and do not overlap.
pub proof fn lemma_joined_remarks_ordered(cs: Seq<ChunkView>, pos: int)
    requires
        0 <= pos,
        pos + joined_bytes(cs).len() <= usize::MAX,
    ensures
        ordered_from(joined_remarks(cs, pos), pos),
    decreases cs.len(),
{
    if cs.len() > 0 {
        let end = pos + cs[0].bytes().len();
        let rest = joined_remarks(cs.drop_first(), end);
        lemma_joined_remarks_ordered(cs.drop_first(), end);
        match cs[0] {
            ChunkView::Text { .. } => {
                lemma_ordered_from_weaken(rest, pos, end);
            },
            ChunkView::Redaction { rule_id, ty, .. } => {
                let first = RemarkView { ty, rule_id, range: Some((pos as usize, end as usize)) };
                assert((seq![first] + rest).drop_first() =~= rest);
            },
        }
    }
}

} // verus!
