//! Wire form of update records.
//!
//! A record travels as one JSON object, `{"id":"..."}` with the optional
//! fields in a fixed order; a flush batch travels as one bracketed,
//! comma-joined list of record encodings.  The encoder always emits the
//! canonical spelling: absent fields omitted, the color in lowercase hex.
//! The parser takes back every spelling the record's producers emit: each
//! optional field present, omitted, or `null`, and the color hex in either
//! case.

use vstd::prelude::*;

use crate::color::{color_of_hex, hex_bytes_of, hex_digit, is_hex_color, is_hex_digit, Color};
use crate::update::{id_byte, is_id, is_id_byte, is_num_byte, lemma_json_number_bytes, num_byte,
    num_vec, UpdateRecord, UpdateRecordView, Vector3, Vector3View, views_of};

verus! {

/// The bytes of `{"id":"`.
pub open spec fn id_open_bytes() -> Seq<u8> {
    seq![0x7bu8, 0x22u8, 0x69u8, 0x64u8, 0x22u8, 0x3au8, 0x22u8]
}

/// The bytes of `,"rotation":`.
pub open spec fn rotation_tag_bytes() -> Seq<u8> {
    seq![
        0x2cu8, 0x22u8, 0x72u8, 0x6fu8, 0x74u8, 0x61u8, 0x74u8, 0x69u8, 0x6fu8, 0x6eu8, 0x22u8,
        0x3au8,
    ]
}

/// The bytes of `,"position":`.
pub open spec fn position_tag_bytes() -> Seq<u8> {
    seq![
        0x2cu8, 0x22u8, 0x70u8, 0x6fu8, 0x73u8, 0x69u8, 0x74u8, 0x69u8, 0x6fu8, 0x6eu8, 0x22u8,
        0x3au8,
    ]
}

/// The bytes of `,"color":`.
pub open spec fn color_tag_bytes() -> Seq<u8> {
    seq![0x2cu8, 0x22u8, 0x63u8, 0x6fu8, 0x6cu8, 0x6fu8, 0x72u8, 0x22u8, 0x3au8]
}

/// The bytes of `null`, the wire form of an explicitly absent field.
pub open spec fn null_bytes() -> Seq<u8> {
    seq![0x6eu8, 0x75u8, 0x6cu8, 0x6cu8]
}

/// The three number literals of a vector, comma-separated.
pub open spec fn vector_bytes(v: Vector3View) -> Seq<u8> {
    v.x + seq![0x2cu8] + v.y + seq![0x2cu8] + v.z
}

/// The canonical encoding of one record: the id, then each present field in
/// rotation, position, color order; absent fields are omitted.
pub open spec fn record_bytes(r: UpdateRecordView) -> Seq<u8> {
    let with_id = id_open_bytes() + r.id + seq![0x22u8];
    let with_rot = if r.rotation is Some {
        with_id + rotation_tag_bytes() + seq![0x5bu8] + vector_bytes(r.rotation->0) + seq![0x5du8]
    } else {
        with_id
    };
    let with_pos = if r.position is Some {
        with_rot + position_tag_bytes() + seq![0x5bu8] + vector_bytes(r.position->0) + seq![0x5du8]
    } else {
        with_rot
    };
    let with_col = if r.color is Some {
        with_pos + color_tag_bytes() + seq![0x22u8] + hex_bytes_of(r.color->0) + seq![0x22u8]
    } else {
        with_pos
    };
    with_col + seq![0x7du8]
}

/// The comma-joined record encodings of a batch, without the brackets.
pub open spec fn batch_inner_bytes(rs: Seq<UpdateRecordView>) -> Seq<u8>
    decreases rs.len(),
{
    if rs.len() == 0 {
        Seq::empty()
    } else if rs.len() == 1 {
        record_bytes(rs[0])
    } else {
        batch_inner_bytes(rs.drop_last()) + seq![0x2cu8] + record_bytes(rs.last())
    }
}

/// One flush batch: the bracketed, comma-joined record encodings.
pub open spec fn batch_bytes(rs: Seq<UpdateRecordView>) -> Seq<u8> {
    seq![0x5bu8] + batch_inner_bytes(rs) + seq![0x5du8]
}

fn push_id_open(out: &mut Vec<u8>)
    ensures
        final(out)@ == old(out)@ + id_open_bytes(),
{
    out.push(0x7b);
    out.push(0x22);
    out.push(0x69);
    out.push(0x64);
    out.push(0x22);
    out.push(0x3a);
    out.push(0x22);
    proof {
        assert(out@ =~= old(out)@ + id_open_bytes());
    }
}

fn push_rotation_tag(out: &mut Vec<u8>)
    ensures
        final(out)@ == old(out)@ + rotation_tag_bytes() + seq![0x5bu8],
{
    out.push(0x2c);
    out.push(0x22);
    out.push(0x72);
    out.push(0x6f);
    out.push(0x74);
    out.push(0x61);
    out.push(0x74);
    out.push(0x69);
    out.push(0x6f);
    out.push(0x6e);
    out.push(0x22);
    out.push(0x3a);
    out.push(0x5b);
    proof {
        assert(out@ =~= old(out)@ + rotation_tag_bytes() + seq![0x5bu8]);
    }
}

fn push_position_tag(out: &mut Vec<u8>)
    ensures
        final(out)@ == old(out)@ + position_tag_bytes() + seq![0x5bu8],
{
    out.push(0x2c);
    out.push(0x22);
    out.push(0x70);
    out.push(0x6f);
    out.push(0x73);
    out.push(0x69);
    out.push(0x74);
    out.push(0x69);
    out.push(0x6f);
    out.push(0x6e);
    out.push(0x22);
    out.push(0x3a);
    out.push(0x5b);
    proof {
        assert(out@ =~= old(out)@ + position_tag_bytes() + seq![0x5bu8]);
    }
}

fn push_color_tag(out: &mut Vec<u8>)
    ensures
        final(out)@ == old(out)@ + color_tag_bytes() + seq![0x22u8],
{
    out.push(0x2c);
    out.push(0x22);
    out.push(0x63);
    out.push(0x6f);
    out.push(0x6c);
    out.push(0x6f);
    out.push(0x72);
    out.push(0x22);
    out.push(0x3a);
    out.push(0x22);
    proof {
        assert(out@ =~= old(out)@ + color_tag_bytes() + seq![0x22u8]);
    }
}

fn extend_vector(out: &mut Vec<u8>, v: &Vector3)
    ensures
        final(out)@ == old(out)@ + vector_bytes(v@),
{
    out.extend_from_slice(v.x.as_slice());
    out.push(0x2c);
    out.extend_from_slice(v.y.as_slice());
    out.push(0x2c);
    out.extend_from_slice(v.z.as_slice());
    proof {
        assert(out@ =~= old(out)@ + vector_bytes(v@));
    }
}

/// Encodes one record into its canonical wire bytes.
pub fn encode_record(rec: &UpdateRecord) -> (out: Vec<u8>)
    ensures
        out@ == record_bytes(rec@),
{
    let mut out: Vec<u8> = Vec::new();
    push_id_open(&mut out);
    out.extend_from_slice(rec.id.as_slice());
    out.push(0x22);
    let ghost with_id = id_open_bytes() + rec.id@ + seq![0x22u8];
    proof {
        assert(out@ =~= with_id);
    }
    match &rec.rotation {
        Some(v) => {
            push_rotation_tag(&mut out);
            extend_vector(&mut out, v);
            out.push(0x5d);
        },
        None => {},
    }
    let ghost with_rot = if rec@.rotation is Some {
        with_id + rotation_tag_bytes() + seq![0x5bu8] + vector_bytes(rec@.rotation->0) + seq![
            0x5du8,
        ]
    } else {
        with_id
    };
    proof {
        assert(out@ =~= with_rot);
    }
    match &rec.position {
        Some(v) => {
            push_position_tag(&mut out);
            extend_vector(&mut out, v);
            out.push(0x5d);
        },
        None => {},
    }
    let ghost with_pos = if rec@.position is Some {
        with_rot + position_tag_bytes() + seq![0x5bu8] + vector_bytes(rec@.position->0) + seq![
            0x5du8,
        ]
    } else {
        with_rot
    };
    proof {
        assert(out@ =~= with_pos);
    }
    match &rec.color {
        Some(c) => {
            push_color_tag(&mut out);
            let hex = c.hex_bytes();
            out.extend_from_slice(hex.as_slice());
            out.push(0x22);
        },
        None => {},
    }
    let ghost with_col = if rec@.color is Some {
        with_pos + color_tag_bytes() + seq![0x22u8] + hex_bytes_of(rec@.color->0) + seq![0x22u8]
    } else {
        with_pos
    };
    proof {
        assert(out@ =~= with_col);
    }
    out.push(0x7d);
    proof {
        assert(out@ =~= record_bytes(rec@));
    }
    out
}

/// Encodes a coalesced batch into one bracketed frame.
pub fn encode_batch(records: &Vec<UpdateRecord>) -> (out: Vec<u8>)
    ensures
        out@ == batch_bytes(views_of(records@)),
{
    let ghost vs = views_of(records@);
    let mut out: Vec<u8> = Vec::new();
    out.push(0x5b);
    let mut i: usize = 0;
    while i < records.len()
        invariant
            i <= records@.len(),
            vs == views_of(records@),
            out@ == seq![0x5bu8] + batch_inner_bytes(vs.subrange(0, i as int)),
        decreases records@.len() - i,
    {
        let ghost pre = vs.subrange(0, i as int);
        if i > 0 {
            out.push(0x2c);
        }
        let mut enc = encode_record(&records[i]);
        out.append(&mut enc);
        proof {
            let cur = vs.subrange(0, i as int + 1);
            assert(cur.drop_last() =~= pre);
            assert(cur.last() == vs[i as int]);
            if i == 0 {
                assert(out@ =~= seq![0x5bu8] + batch_inner_bytes(cur));
            } else {
                assert(out@ =~= seq![0x5bu8] + batch_inner_bytes(cur));
            }
        }
        i += 1;
    }
    out.push(0x5d);
    proof {
        assert(vs.subrange(0, vs.len() as int) =~= vs);
        assert(out@ =~= batch_bytes(vs));
    }
    out
}

fn copy_range(s: &Vec<u8>, a: usize, b: usize) -> (out: Vec<u8>)
    requires
        a <= b <= s@.len(),
    ensures
        out@ == s@.subrange(a as int, b as int),
{
    let mut out: Vec<u8> = Vec::new();
    let mut i = a;
    while i < b
        invariant
            a <= i <= b <= s@.len(),
            out@ == s@.subrange(a as int, i as int),
        decreases b - i,
    {
        out.push(s[i]);
        i += 1;
        proof {
            assert(out@ =~= s@.subrange(a as int, i as int));
        }
    }
    out
}

/// One byte of a region of `s` known to hold `seg`.
proof fn lemma_seg_byte(s: Seq<u8>, a: int, b: int, seg: Seq<u8>, k: int)
    requires
        0 <= a,
        a + seg.len() == b <= s.len(),
        s.subrange(a, b) == seg,
        0 <= k < seg.len(),
    ensures
        s[a + k] == seg[k],
{
    assert(s.subrange(a, b)[k] == s[a + k]);
}

/// A sub-span of a region of `s` known to hold `seg`.
proof fn lemma_subseg(s: Seq<u8>, a: int, b: int, seg: Seq<u8>, c: int, d: int)
    requires
        0 <= a,
        a + seg.len() == b <= s.len(),
        s.subrange(a, b) == seg,
        0 <= c <= d <= seg.len(),
    ensures
        s.subrange(a + c, a + d) == seg.subrange(c, d),
{
    assert forall|k: int| 0 <= k < d - c implies s.subrange(a + c, a + d)[k] == seg.subrange(
        c,
        d,
    )[k] by {
        assert(s.subrange(a, b)[c + k] == s[a + c + k]);
        assert(s.subrange(a + c, a + d)[k] == s[a + c + k]);
        assert(seg.subrange(c, d)[k] == seg[c + k]);
    }
    assert(s.subrange(a + c, a + d) =~= seg.subrange(c, d));
}

/// The two spans of a two-part concatenation.
proof fn lemma_concat_parts(a: Seq<u8>, b: Seq<u8>)
    ensures
        (a + b).subrange(0, a.len() as int) == a,
        (a + b).subrange(a.len() as int, (a + b).len() as int) == b,
{
    assert((a + b).subrange(0, a.len() as int) =~= a);
    assert((a + b).subrange(a.len() as int, (a + b).len() as int) =~= b);
}

/// The middle span of a three-part concatenation.
proof fn lemma_chunk(prefix: Seq<u8>, chunk: Seq<u8>, suffix: Seq<u8>)
    ensures
        (prefix + chunk + suffix).subrange(
            prefix.len() as int,
            prefix.len() + chunk.len() as int,
        ) == chunk,
{
    assert((prefix + chunk + suffix).subrange(
        prefix.len() as int,
        prefix.len() + chunk.len() as int,
    ) =~= chunk);
}

/// How one wire form spells a record: whether each absent field is written
/// `null` rather than omitted, and which hex spelling carries the color.
pub ghost struct RecordForm {
    pub rot_null: bool,
    pub pos_null: bool,
    pub col_null: bool,
    pub col_hex: Seq<u8>,
}

impl RecordForm {
    /// The form spells this record: a `null` spelling only for an absent
    /// field, and a well-formed hex triplet denoting the record's color.
    pub open spec fn matches(self, v: UpdateRecordView) -> bool {
        &&& self.rot_null ==> v.rotation is None
        &&& self.pos_null ==> v.position is None
        &&& self.col_null ==> v.color is None
        &&& match v.color {
            Some(c) => is_hex_color(self.col_hex) && color_of_hex(self.col_hex) == c,
            None => self.col_hex == Seq::<u8>::empty(),
        }
    }
}

/// The canonical form: absent fields omitted, the color in lowercase hex.
pub open spec fn canonical_form(v: UpdateRecordView) -> RecordForm {
    RecordForm {
        rot_null: false,
        pos_null: false,
        col_null: false,
        col_hex: match v.color {
            Some(c) => hex_bytes_of(c),
            None => Seq::empty(),
        },
    }
}

/// The rotation segment of a record in a given form: tag and bracketed
/// vector when present, tag and `null` or nothing at all when absent.
pub open spec fn rotation_seg(v: UpdateRecordView, f: RecordForm) -> Seq<u8> {
    match v.rotation {
        Some(vw) => rotation_tag_bytes() + seq![0x5bu8] + vector_bytes(vw) + seq![0x5du8],
        None => if f.rot_null {
            rotation_tag_bytes() + null_bytes()
        } else {
            Seq::empty()
        },
    }
}

/// The position segment, likewise.
pub open spec fn position_seg(v: UpdateRecordView, f: RecordForm) -> Seq<u8> {
    match v.position {
        Some(vw) => position_tag_bytes() + seq![0x5bu8] + vector_bytes(vw) + seq![0x5du8],
        None => if f.pos_null {
            position_tag_bytes() + null_bytes()
        } else {
            Seq::empty()
        },
    }
}

/// The color segment, likewise, with the form's own hex spelling.
pub open spec fn color_seg(v: UpdateRecordView, f: RecordForm) -> Seq<u8> {
    match v.color {
        Some(_) => color_tag_bytes() + seq![0x22u8] + f.col_hex + seq![0x22u8],
        None => if f.col_null {
            color_tag_bytes() + null_bytes()
        } else {
            Seq::empty()
        },
    }
}

/// A record's bytes in a given wire form, laid out flat.
pub open spec fn record_form_bytes(v: UpdateRecordView, f: RecordForm) -> Seq<u8> {
    id_open_bytes() + v.id + seq![0x22u8] + rotation_seg(v, f) + position_seg(v, f) + color_seg(
        v,
        f,
    ) + seq![0x7du8]
}

/// True when `s` is one of the accepted wire spellings of the record `v`.
pub open spec fn is_record_encoding(s: Seq<u8>, v: UpdateRecordView) -> bool {
    exists|f: RecordForm| f.matches(v) && s == record_form_bytes(v, f)
}

/// Law: the canonical bytes the encoder emits are one of the accepted
/// spellings, so a parse takes back exactly what an encode produced.
pub proof fn lemma_record_bytes_canonical(v: UpdateRecordView)
    ensures
        record_bytes(v) == record_form_bytes(v, canonical_form(v)),
        canonical_form(v).matches(v),
        is_record_encoding(record_bytes(v), v),
{
    let f = canonical_form(v);
    if v.color is Some {
        crate::color::lemma_hex_round_trip(v.color->0);
    }
    assert(record_bytes(v) =~= record_form_bytes(v, f));
}

/// The flat layout of a record's bytes in a form: the offsets of the id,
/// of each segment, and of the closing brace.
#[verifier::rlimit(100)]
proof fn lemma_form_layout(v: UpdateRecordView, f: RecordForm)
    ensures
        ({
            let idlen = v.id.len() as int;
            let a0 = idlen + 8;
            let a1 = a0 + rotation_seg(v, f).len();
            let a2 = a1 + position_seg(v, f).len();
            let a3 = a2 + color_seg(v, f).len();
            &&& record_form_bytes(v, f).len() == a3 + 1
            &&& record_form_bytes(v, f).subrange(0, 7) == id_open_bytes()
            &&& record_form_bytes(v, f).subrange(7, 7 + idlen) == v.id
            &&& record_form_bytes(v, f)[7 + idlen] == 0x22
            &&& record_form_bytes(v, f).subrange(a0, a1) == rotation_seg(v, f)
            &&& record_form_bytes(v, f).subrange(a1, a2) == position_seg(v, f)
            &&& record_form_bytes(v, f).subrange(a2, a3) == color_seg(v, f)
            &&& record_form_bytes(v, f)[a3] == 0x7d
        }),
{
    let idlen = v.id.len() as int;
    let a0 = idlen + 8;
    let a1 = a0 + rotation_seg(v, f).len();
    let a2 = a1 + position_seg(v, f).len();
    let a3 = a2 + color_seg(v, f).len();
    let rb = record_form_bytes(v, f);
    let tail = seq![0x7du8];
    let rseg = rotation_seg(v, f);
    let pseg = position_seg(v, f);
    let cseg = color_seg(v, f);
    let with_id = id_open_bytes() + v.id + seq![0x22u8];
    lemma_chunk(with_id + rseg + pseg, cseg, tail);
    assert(with_id + rseg + pseg + cseg + tail == rb);
    lemma_chunk(with_id + rseg, pseg, cseg + tail);
    assert(with_id + rseg + pseg + (cseg + tail) =~= rb);
    lemma_chunk(with_id, rseg, pseg + (cseg + tail));
    assert(with_id + rseg + (pseg + (cseg + tail)) =~= rb);
    let after_quote = rseg + (pseg + (cseg + tail));
    lemma_chunk(id_open_bytes() + v.id, seq![0x22u8], after_quote);
    assert(id_open_bytes() + v.id + seq![0x22u8] + after_quote =~= rb);
    lemma_chunk(id_open_bytes(), v.id, seq![0x22u8] + after_quote);
    assert(id_open_bytes() + v.id + (seq![0x22u8] + after_quote) =~= rb);
    lemma_concat_parts(id_open_bytes(), v.id + (seq![0x22u8] + after_quote));
    assert(id_open_bytes() + (v.id + (seq![0x22u8] + after_quote)) =~= rb);
    assert(rb[7 + idlen] == 0x22) by {
        assert(rb.subrange(a0 - 1, a0)[0] == rb[a0 - 1]);
        assert((id_open_bytes() + v.id + seq![0x22u8] + after_quote).subrange(a0 - 1, a0)
            =~= seq![0x22u8]);
    }
    assert(rb[a3] == 0x7d) by {
        assert((with_id + rseg + pseg + cseg + tail)[a3] == tail[0]);
    }
}

/// Each segment of a form split behind its tag.
proof fn lemma_form_seg_parts(v: UpdateRecordView, f: RecordForm)
    ensures
        v.rotation is Some ==> ({
            let seg = rotation_seg(v, f);
            &&& seg.len() == vector_bytes(v.rotation->0).len() + 14
            &&& seg.subrange(0, 12) == rotation_tag_bytes()
            &&& seg[12] == 0x5b
            &&& seg.subrange(13, seg.len() as int) == vector_bytes(v.rotation->0) + seq![0x5du8]
        }),
        v.rotation is None && f.rot_null ==> ({
            let seg = rotation_seg(v, f);
            &&& seg.len() == 16
            &&& seg.subrange(0, 12) == rotation_tag_bytes()
            &&& seg.subrange(12, 16) == null_bytes()
        }),
        v.position is Some ==> ({
            let seg = position_seg(v, f);
            &&& seg.len() == vector_bytes(v.position->0).len() + 14
            &&& seg.subrange(0, 12) == position_tag_bytes()
            &&& seg[12] == 0x5b
            &&& seg.subrange(13, seg.len() as int) == vector_bytes(v.position->0) + seq![0x5du8]
        }),
        v.position is None && f.pos_null ==> ({
            let seg = position_seg(v, f);
            &&& seg.len() == 16
            &&& seg.subrange(0, 12) == position_tag_bytes()
            &&& seg.subrange(12, 16) == null_bytes()
        }),
        v.color is Some ==> ({
            let seg = color_seg(v, f);
            &&& seg.len() == f.col_hex.len() + 11
            &&& seg.subrange(0, 9) == color_tag_bytes()
            &&& seg[9] == 0x22
            &&& seg.subrange(10, 10 + f.col_hex.len() as int) == f.col_hex
            &&& seg[10 + f.col_hex.len() as int] == 0x22
        }),
        v.color is None && f.col_null ==> ({
            let seg = color_seg(v, f);
            &&& seg.len() == 13
            &&& seg.subrange(0, 9) == color_tag_bytes()
            &&& seg.subrange(9, 13) == null_bytes()
        }),
{
    if v.rotation is Some {
        let body = seq![0x5bu8] + vector_bytes(v.rotation->0) + seq![0x5du8];
        assert(rotation_seg(v, f) =~= rotation_tag_bytes() + body);
        lemma_concat_parts(rotation_tag_bytes(), body);
        assert(rotation_seg(v, f)[12] == body[0]) by {
            assert(rotation_seg(v, f).subrange(12, rotation_seg(v, f).len() as int)[0]
                == rotation_seg(v, f)[12]);
        }
        assert(rotation_seg(v, f).subrange(13, rotation_seg(v, f).len() as int) =~= vector_bytes(
            v.rotation->0,
        ) + seq![0x5du8]) by {
            assert((rotation_tag_bytes() + body).subrange(13, rotation_seg(v, f).len() as int)
                =~= vector_bytes(v.rotation->0) + seq![0x5du8]);
        }
    } else if f.rot_null {
        assert(rotation_seg(v, f) =~= rotation_tag_bytes() + null_bytes());
        lemma_concat_parts(rotation_tag_bytes(), null_bytes());
    }
    if v.position is Some {
        let body = seq![0x5bu8] + vector_bytes(v.position->0) + seq![0x5du8];
        assert(position_seg(v, f) =~= position_tag_bytes() + body);
        lemma_concat_parts(position_tag_bytes(), body);
        assert(position_seg(v, f)[12] == body[0]) by {
            assert(position_seg(v, f).subrange(12, position_seg(v, f).len() as int)[0]
                == position_seg(v, f)[12]);
        }
        assert(position_seg(v, f).subrange(13, position_seg(v, f).len() as int) =~= vector_bytes(
            v.position->0,
        ) + seq![0x5du8]) by {
            assert((position_tag_bytes() + body).subrange(13, position_seg(v, f).len() as int)
                =~= vector_bytes(v.position->0) + seq![0x5du8]);
        }
    } else if f.pos_null {
        assert(position_seg(v, f) =~= position_tag_bytes() + null_bytes());
        lemma_concat_parts(position_tag_bytes(), null_bytes());
    }
    if v.color is Some {
        let body = seq![0x22u8] + f.col_hex + seq![0x22u8];
        assert(color_seg(v, f) =~= color_tag_bytes() + body);
        lemma_concat_parts(color_tag_bytes(), body);
        assert(color_seg(v, f)[9] == body[0]) by {
            assert(color_seg(v, f).subrange(9, color_seg(v, f).len() as int)[0] == color_seg(
                v,
                f,
            )[9]);
        }
        assert(color_seg(v, f).subrange(10, 10 + f.col_hex.len() as int) =~= f.col_hex) by {
            assert((color_tag_bytes() + body).subrange(10, 10 + f.col_hex.len() as int)
                =~= f.col_hex);
        }
        assert(color_seg(v, f)[10 + f.col_hex.len() as int] == 0x22) by {
            assert((color_tag_bytes() + body)[9 + body.len() - 1] == body[body.len() - 1]);
        }
    } else if f.col_null {
        assert(color_seg(v, f) =~= color_tag_bytes() + null_bytes());
        lemma_concat_parts(color_tag_bytes(), null_bytes());
    }
}

/// The inner layout of a vector's encoding followed by its closing bracket:
/// the three number literals, the commas between them, and the bracket.
proof fn lemma_vector_seg_layout(vw: Vector3View)
    ensures
        ({
            let seg = vector_bytes(vw) + seq![0x5du8];
            let xl = vw.x.len() as int;
            let yl = vw.y.len() as int;
            let zl = vw.z.len() as int;
            &&& seg.len() == xl + yl + zl + 3
            &&& seg.subrange(0, xl) == vw.x
            &&& seg[xl] == 0x2c
            &&& seg.subrange(xl + 1, xl + 1 + yl) == vw.y
            &&& seg[xl + yl + 1] == 0x2c
            &&& seg.subrange(xl + yl + 2, xl + yl + 2 + zl) == vw.z
            &&& seg[xl + yl + zl + 2] == 0x5d
        }),
{
    let seg = vector_bytes(vw) + seq![0x5du8];
    let xl = vw.x.len() as int;
    let yl = vw.y.len() as int;
    let zl = vw.z.len() as int;
    assert(seg =~= vw.x + (seq![0x2cu8] + vw.y + (seq![0x2cu8] + vw.z + seq![0x5du8])));
    lemma_concat_parts(vw.x, seq![0x2cu8] + vw.y + (seq![0x2cu8] + vw.z + seq![0x5du8]));
    assert(seg.subrange(0, xl) == vw.x);
    lemma_chunk(vw.x + seq![0x2cu8], vw.y, seq![0x2cu8] + vw.z + seq![0x5du8]);
    assert(vw.x + seq![0x2cu8] + vw.y + (seq![0x2cu8] + vw.z + seq![0x5du8]) =~= seg);
    assert(seg.subrange(xl + 1, xl + 1 + yl) == vw.y);
    lemma_chunk(vw.x + seq![0x2cu8] + vw.y + seq![0x2cu8], vw.z, seq![0x5du8]);
    assert(vw.x + seq![0x2cu8] + vw.y + seq![0x2cu8] + vw.z + seq![0x5du8] =~= seg);
    assert(seg.subrange(xl + yl + 2, xl + yl + 2 + zl) == vw.z);
    assert(seg[xl] == 0x2c) by {
        assert(seg.subrange(xl, xl + 1 + yl)[0] == seg[xl]);
        lemma_chunk(vw.x, seq![0x2cu8] + vw.y, seq![0x2cu8] + vw.z + seq![0x5du8]);
        assert(vw.x + (seq![0x2cu8] + vw.y) + (seq![0x2cu8] + vw.z + seq![0x5du8]) =~= seg);
        assert(seg.subrange(xl, xl + 1 + yl) == seq![0x2cu8] + vw.y);
    }
    assert(seg[xl + yl + 1] == 0x2c) by {
        lemma_chunk(vw.x + seq![0x2cu8] + vw.y, seq![0x2cu8] + vw.z, seq![0x5du8]);
        assert(vw.x + seq![0x2cu8] + vw.y + (seq![0x2cu8] + vw.z) + seq![0x5du8] =~= seg);
        assert(seg.subrange(xl + yl + 1, xl + yl + 2 + zl) == seq![0x2cu8] + vw.z);
        assert(seg.subrange(xl + yl + 1, xl + yl + 2 + zl)[0] == seg[xl + yl + 1]);
    }
    assert(seg[xl + yl + zl + 2] == 0x5d) by {
        lemma_concat_parts(vector_bytes(vw), seq![0x5du8]);
        assert(seg.subrange(xl + yl + zl + 2, xl + yl + zl + 3)[0] == seg[xl + yl + zl + 2]);
    }
}

/// Stitches a tag, an opening bracket, and a scanned vector back into one
/// span of the input.
proof fn lemma_compose_vector_span(s: Seq<u8>, a: int, q: int, tag: Seq<u8>, vw: Vector3View)
    requires
        0 <= a,
        a + 12 <= s.len(),
        s.subrange(a, a + 12) == tag,
        tag.len() == 12,
        a + 13 <= q <= s.len(),
        s[a + 12] == 0x5b,
        s.subrange(a + 13, q) == vector_bytes(vw) + seq![0x5du8],
    ensures
        s.subrange(a, q) == tag + seq![0x5bu8] + vector_bytes(vw) + seq![0x5du8],
{
    let target = tag + seq![0x5bu8] + vector_bytes(vw) + seq![0x5du8];
    assert(s.subrange(a + 13, q).len() == q - (a + 13));
    assert((vector_bytes(vw) + seq![0x5du8]).len() == vector_bytes(vw).len() + 1);
    assert(q - (a + 13) == vector_bytes(vw).len() + 1);
    assert forall|k: int| 0 <= k < q - a implies s.subrange(a, q)[k] == target[k] by {
        assert(s.subrange(a, q)[k] == s[a + k]);
        if k < 12 {
            assert(s[a + k] == s.subrange(a, a + 12)[k]);
            assert(s.subrange(a, a + 12)[k] == tag[k]);
            assert(target[k] == tag[k]);
        } else if k == 12 {
            assert(target[12] == 0x5b);
        } else {
            assert(s[a + k] == s.subrange(a + 13, q)[k - 13]);
            assert(s.subrange(a + 13, q)[k - 13] == (vector_bytes(vw) + seq![0x5du8])[k - 13]);
            assert(target[k] == (vector_bytes(vw) + seq![0x5du8])[k - 13]);
        }
    }
    assert(s.subrange(a, q) =~= target);
}

/// Stitches a tag and a `null` spelling back into one span of the input.
proof fn lemma_compose_null_span(s: Seq<u8>, a: int, tag: Seq<u8>, tlen: int)
    requires
        0 <= a,
        tag.len() == tlen,
        a + tlen + 4 <= s.len(),
        s.subrange(a, a + tlen) == tag,
        s[a + tlen] == 0x6e,
        s[a + tlen + 1] == 0x75,
        s[a + tlen + 2] == 0x6c,
        s[a + tlen + 3] == 0x6c,
    ensures
        s.subrange(a, a + tlen + 4) == tag + null_bytes(),
{
    assert forall|k: int|
        0 <= k < tlen + 4 implies s.subrange(a, a + tlen + 4)[k] == (tag + null_bytes())[k] by {
        assert(s.subrange(a, a + tlen + 4)[k] == s[a + k]);
        if k < tlen {
            assert(tag[k] == s.subrange(a, a + tlen)[k]);
        }
    }
    assert(s.subrange(a, a + tlen + 4) =~= tag + null_bytes());
}

/// Stitches the color tag and a scanned quoted hex triplet back into one
/// span of the input.
proof fn lemma_compose_color_span(s: Seq<u8>, a: int)
    requires
        0 <= a,
        a + 18 <= s.len(),
        s.subrange(a, a + 9) == color_tag_bytes(),
        s[a + 9] == 0x22,
        s[a + 17] == 0x22,
    ensures
        s.subrange(a, a + 18) == color_tag_bytes() + seq![0x22u8] + s.subrange(a + 10, a + 17)
            + seq![0x22u8],
{
    let hs = s.subrange(a + 10, a + 17);
    let target = color_tag_bytes() + seq![0x22u8] + hs + seq![0x22u8];
    assert forall|k: int| 0 <= k < 18 implies s.subrange(a, a + 18)[k] == target[k] by {
        assert(s.subrange(a, a + 18)[k] == s[a + k]);
        if k < 9 {
            assert(color_tag_bytes()[k] == s.subrange(a, a + 9)[k]);
        } else if 10 <= k < 17 {
            assert(hs[k - 10] == s[a + k]);
        }
    }
    assert(s.subrange(a, a + 18) =~= target);
}

fn matches_rotation_tag(s: &Vec<u8>, p: usize) -> (r: bool)
    ensures
        r <==> (p + 12 <= s@.len() && s@.subrange(p as int, p as int + 12)
            == rotation_tag_bytes()),
{
    if p > s.len() || s.len() - p < 12 {
        return false;
    }
    let r = s[p] == 0x2c && s[p + 1] == 0x22 && s[p + 2] == 0x72 && s[p + 3] == 0x6f && s[p + 4]
        == 0x74 && s[p + 5] == 0x61 && s[p + 6] == 0x74 && s[p + 7] == 0x69 && s[p + 8] == 0x6f
        && s[p + 9] == 0x6e && s[p + 10] == 0x22 && s[p + 11] == 0x3a;
    proof {
        let sub = s@.subrange(p as int, p as int + 12);
        if r {
            assert(sub =~= rotation_tag_bytes());
        }
        if sub == rotation_tag_bytes() {
            assert(forall|k: int| 0 <= k < 12 ==> s@[p + k] == #[trigger] sub[k]);
        }
    }
    r
}

fn matches_position_tag(s: &Vec<u8>, p: usize) -> (r: bool)
    ensures
        r <==> (p + 12 <= s@.len() && s@.subrange(p as int, p as int + 12)
            == position_tag_bytes()),
{
    if p > s.len() || s.len() - p < 12 {
        return false;
    }
    let r = s[p] == 0x2c && s[p + 1] == 0x22 && s[p + 2] == 0x70 && s[p + 3] == 0x6f && s[p + 4]
        == 0x73 && s[p + 5] == 0x69 && s[p + 6] == 0x74 && s[p + 7] == 0x69 && s[p + 8] == 0x6f
        && s[p + 9] == 0x6e && s[p + 10] == 0x22 && s[p + 11] == 0x3a;
    proof {
        let sub = s@.subrange(p as int, p as int + 12);
        if r {
            assert(sub =~= position_tag_bytes());
        }
        if sub == position_tag_bytes() {
            assert(forall|k: int| 0 <= k < 12 ==> s@[p + k] == #[trigger] sub[k]);
        }
    }
    r
}

fn matches_color_tag(s: &Vec<u8>, p: usize) -> (r: bool)
    ensures
        r <==> (p + 9 <= s@.len() && s@.subrange(p as int, p as int + 9) == color_tag_bytes()),
{
    if p > s.len() || s.len() - p < 9 {
        return false;
    }
    let r = s[p] == 0x2c && s[p + 1] == 0x22 && s[p + 2] == 0x63 && s[p + 3] == 0x6f && s[p + 4]
        == 0x6c && s[p + 5] == 0x6f && s[p + 6] == 0x72 && s[p + 7] == 0x22 && s[p + 8] == 0x3a;
    proof {
        let sub = s@.subrange(p as int, p as int + 9);
        if r {
            assert(sub =~= color_tag_bytes());
        }
        if sub == color_tag_bytes() {
            assert(forall|k: int| 0 <= k < 9 ==> s@[p + k] == #[trigger] sub[k]);
        }
    }
    r
}

/// Takes the maximal run of number-literal bytes starting at `p`; fails
/// exactly when that run is empty.
fn scan_number(s: &Vec<u8>, p: usize) -> (r: Option<(Vec<u8>, usize)>)
    ensures
        match r {
            Some(t) => {
                &&& p < t.1 <= s@.len()
                &&& t.0@ == s@.subrange(p as int, t.1 as int)
                &&& forall|k: int| p <= k < t.1 ==> is_num_byte(#[trigger] s@[k])
                &&& (t.1 == s@.len() || !is_num_byte(s@[t.1 as int]))
            },
            None => p >= s@.len() || !is_num_byte(s@[p as int]),
        },
{
    if p >= s.len() {
        return None;
    }
    let mut q = p;
    while q < s.len() && num_byte(s[q])
        invariant
            p <= q <= s@.len(),
            forall|k: int| p <= k < q ==> is_num_byte(#[trigger] s@[k]),
        decreases s@.len() - q,
    {
        q += 1;
    }
    if q == p {
        None
    } else {
        Some((copy_range(s, p, q), q))
    }
}

/// Cuts `x,y,z]` off the input from `p`.  Handed the vector that a
/// canonical encoding carries there, it is certain to find exactly it.
#[verifier::rlimit(100)]
fn scan_vector(s: &Vec<u8>, p: usize, Ghost(w): Ghost<Option<Vector3View>>) -> (r: Option<(
    Vector3,
    usize,
)>)
    requires
        match w {
            Some(vw) => {
                &&& vw.wf()
                &&& p + vector_bytes(vw).len() + 1 <= s@.len()
                &&& s@.subrange(p as int, p + vector_bytes(vw).len() + 1) == vector_bytes(vw)
                    + seq![0x5du8]
            },
            None => true,
        },
    ensures
        r is Some ==> {
            &&& p < (r->0).1 <= s@.len()
            &&& (r->0).0@.wf()
            &&& s@.subrange(p as int, (r->0).1 as int) == vector_bytes((r->0).0@) + seq![0x5du8]
        },
        w is Some ==> {
            &&& r is Some
            &&& (r->0).0@ == w->0
            &&& (r->0).1 == p + vector_bytes(w->0).len() + 1
        },
{
    let ghost seg: Seq<u8> = if w is Some {
        vector_bytes(w->0) + seq![0x5du8]
    } else {
        Seq::empty()
    };
    let ghost xl: int = if w is Some { w->0.x.len() as int } else { 0 };
    let ghost yl: int = if w is Some { w->0.y.len() as int } else { 0 };
    let ghost zl: int = if w is Some { w->0.z.len() as int } else { 0 };
    proof {
        if w is Some {
            lemma_vector_seg_layout(w->0);
            lemma_json_number_bytes(w->0.x);
            lemma_json_number_bytes(w->0.y);
            lemma_json_number_bytes(w->0.z);
        }
    }
    let (x, p1) = match scan_number(s, p) {
        Some(t) => t,
        None => {
            proof {
                if w is Some {
                    lemma_seg_byte(s@, p as int, p + seg.len() as int, seg, 0);
                    assert(seg.subrange(0, xl)[0] == seg[0]);
                    assert(is_num_byte(w->0.x[0]));
                    assert(false);
                }
            }
            return None;
        },
    };
    proof {
        if w is Some {
            let vw = w->0;
            if (p1 as int) < p + xl {
                lemma_seg_byte(s@, p as int, p + seg.len() as int, seg, p1 - p);
                assert(seg.subrange(0, xl)[p1 - p] == seg[p1 - p]);
                assert(is_num_byte(vw.x[p1 - p]));
                assert(false);
            }
            if (p1 as int) > p + xl {
                assert(is_num_byte(s@[p + xl]));
                lemma_seg_byte(s@, p as int, p + seg.len() as int, seg, xl);
                assert(false);
            }
            assert(p1 == p + xl);
            lemma_subseg(s@, p as int, p + seg.len() as int, seg, 0, xl);
            assert(x@ == vw.x);
        }
    }
    if !num_vec(&x) {
        proof {
            if w is Some {
                assert(false);
            }
        }
        return None;
    }
    if p1 >= s.len() || s[p1] != 0x2c {
        proof {
            if w is Some {
                lemma_seg_byte(s@, p as int, p + seg.len() as int, seg, xl);
                assert(false);
            }
        }
        return None;
    }
    let (y, p2) = match scan_number(s, p1 + 1) {
        Some(t) => t,
        None => {
            proof {
                if w is Some {
                    lemma_seg_byte(s@, p as int, p + seg.len() as int, seg, xl + 1);
                    assert(seg.subrange(xl + 1, xl + 1 + yl)[0] == seg[xl + 1]);
                    assert(is_num_byte(w->0.y[0]));
                    assert(false);
                }
            }
            return None;
        },
    };
    proof {
        if w is Some {
            let vw = w->0;
            let b1 = p + xl + 1;
            if (p2 as int) < b1 + yl {
                lemma_seg_byte(s@, p as int, p + seg.len() as int, seg, p2 - p);
                assert(seg.subrange(xl + 1, xl + 1 + yl)[p2 - b1] == seg[p2 - p]);
                assert(is_num_byte(vw.y[p2 - b1]));
                assert(false);
            }
            if (p2 as int) > b1 + yl {
                assert(is_num_byte(s@[b1 + yl]));
                lemma_seg_byte(s@, p as int, p + seg.len() as int, seg, xl + yl + 1);
                assert(false);
            }
            assert(p2 == b1 + yl);
            lemma_subseg(s@, p as int, p + seg.len() as int, seg, xl + 1, xl + 1 + yl);
            assert(y@ == vw.y);
        }
    }
    if !num_vec(&y) {
        proof {
            if w is Some {
                assert(false);
            }
        }
        return None;
    }
    if p2 >= s.len() || s[p2] != 0x2c {
        proof {
            if w is Some {
                lemma_seg_byte(s@, p as int, p + seg.len() as int, seg, xl + yl + 1);
                assert(false);
            }
        }
        return None;
    }
    let (z, p3) = match scan_number(s, p2 + 1) {
        Some(t) => t,
        None => {
            proof {
                if w is Some {
                    lemma_seg_byte(s@, p as int, p + seg.len() as int, seg, xl + yl + 2);
                    assert(seg.subrange(xl + yl + 2, xl + yl + 2 + zl)[0] == seg[xl + yl + 2]);
                    assert(is_num_byte(w->0.z[0]));
                    assert(false);
                }
            }
            return None;
        },
    };
    proof {
        if w is Some {
            let vw = w->0;
            let b2 = p + xl + yl + 2;
            if (p3 as int) < b2 + zl {
                lemma_seg_byte(s@, p as int, p + seg.len() as int, seg, p3 - p);
                assert(seg.subrange(xl + yl + 2, xl + yl + 2 + zl)[p3 - b2] == seg[p3 - p]);
                assert(is_num_byte(vw.z[p3 - b2]));
                assert(false);
            }
            if (p3 as int) > b2 + zl {
                assert(is_num_byte(s@[b2 + zl]));
                lemma_seg_byte(s@, p as int, p + seg.len() as int, seg, xl + yl + zl + 2);
                assert(false);
            }
            assert(p3 == b2 + zl);
            lemma_subseg(s@, p as int, p + seg.len() as int, seg, xl + yl + 2, xl + yl + 2 + zl);
            assert(z@ == vw.z);
        }
    }
    if !num_vec(&z) {
        proof {
            if w is Some {
                assert(false);
            }
        }
        return None;
    }
    if p3 >= s.len() || s[p3] != 0x5d {
        proof {
            if w is Some {
                lemma_seg_byte(s@, p as int, p + seg.len() as int, seg, xl + yl + zl + 2);
                assert(false);
            }
        }
        return None;
    }
    proof {
        assert(s@.subrange(p as int, p3 + 1) =~= x@ + seq![0x2cu8] + y@ + seq![0x2cu8] + z@
            + seq![0x5du8]);
    }
    Some((Vector3 { x, y, z }, p3 + 1))
}

fn scan_color(s: &Vec<u8>, p: usize, Ghost(w): Ghost<Option<Seq<u8>>>) -> (r: Option<(
    Color,
    usize,
)>)
    requires
        match w {
            Some(hs) => is_hex_color(hs) && p + 9 <= s@.len() && s@.subrange(
                p as int,
                p as int + 9,
            ) == seq![0x22u8] + hs + seq![0x22u8],
            None => true,
        },
    ensures
        r is Some ==> {
            &&& p + 9 <= s@.len()
            &&& (r->0).1 == p + 9
            &&& s@[p as int] == 0x22
            &&& s@[p as int + 8] == 0x22
            &&& is_hex_color(s@.subrange(p as int + 1, p as int + 8))
            &&& (r->0).0 == color_of_hex(s@.subrange(p as int + 1, p as int + 8))
        },
        w is Some ==> r is Some && (r->0).0 == color_of_hex(w->0),
{
    let ghost seg: Seq<u8> = if w is Some {
        seq![0x22u8] + w->0 + seq![0x22u8]
    } else {
        Seq::empty()
    };
    proof {
        if w is Some {
            lemma_seg_byte(s@, p as int, p as int + 9, seg, 0);
            lemma_seg_byte(s@, p as int, p as int + 9, seg, 1);
            lemma_seg_byte(s@, p as int, p as int + 9, seg, 2);
            lemma_seg_byte(s@, p as int, p as int + 9, seg, 3);
            lemma_seg_byte(s@, p as int, p as int + 9, seg, 4);
            lemma_seg_byte(s@, p as int, p as int + 9, seg, 5);
            lemma_seg_byte(s@, p as int, p as int + 9, seg, 6);
            lemma_seg_byte(s@, p as int, p as int + 9, seg, 7);
            lemma_seg_byte(s@, p as int, p as int + 9, seg, 8);
        }
    }
    if p > s.len() || s.len() - p < 9 {
        return None;
    }
    if s[p] != 0x22 {
        proof {
            if w is Some {
                assert(false);
            }
        }
        return None;
    }
    if s[p + 1] != 0x23 {
        proof {
            if w is Some {
                assert(false);
            }
        }
        return None;
    }
    let d1 = hex_digit(s[p + 2]);
    let d2 = hex_digit(s[p + 3]);
    let d3 = hex_digit(s[p + 4]);
    let d4 = hex_digit(s[p + 5]);
    let d5 = hex_digit(s[p + 6]);
    let d6 = hex_digit(s[p + 7]);
    if s[p + 8] != 0x22 {
        proof {
            if w is Some {
                assert(false);
            }
        }
        return None;
    }
    match (d1, d2, d3, d4, d5, d6) {
        (Some(h1), Some(h2), Some(h3), Some(h4), Some(h5), Some(h6)) => {
            let c = Color { r: h1 * 16 + h2, g: h3 * 16 + h4, b: h5 * 16 + h6 };
            proof {
                let hs = s@.subrange(p as int + 1, p as int + 8);
                assert(is_hex_color(hs)) by {
                    assert(hs[0] == s@[p as int + 1]);
                    assert(hs[1] == s@[p as int + 2]);
                    assert(hs[2] == s@[p as int + 3]);
                    assert(hs[3] == s@[p as int + 4]);
                    assert(hs[4] == s@[p as int + 5]);
                    assert(hs[5] == s@[p as int + 6]);
                    assert(hs[6] == s@[p as int + 7]);
                    assert(forall|i: int|
                        1 <= i < 7 ==> is_hex_digit(#[trigger] hs[i]));
                }
                assert(c == color_of_hex(hs)) by {
                    assert(hs[1] == s@[p as int + 2]);
                    assert(hs[2] == s@[p as int + 3]);
                    assert(hs[3] == s@[p as int + 4]);
                    assert(hs[4] == s@[p as int + 5]);
                    assert(hs[5] == s@[p as int + 6]);
                    assert(hs[6] == s@[p as int + 7]);
                }
                if w is Some {
                    assert(hs =~= w->0);
                }
            }
            Some((c, p + 9))
        },
        _ => {
            proof {
                if w is Some {
                    let hs = w->0;
                    assert(seg[2] == hs[1] && seg[3] == hs[2] && seg[4] == hs[3] && seg[5]
                        == hs[4] && seg[6] == hs[5] && seg[7] == hs[6]);
                    assert(is_hex_digit(hs[1]) && is_hex_digit(hs[2]) && is_hex_digit(hs[3])
                        && is_hex_digit(hs[4]) && is_hex_digit(hs[5]) && is_hex_digit(hs[6]));
                    assert(false);
                }
            }
            None
        },
    }
}

/// Stitches the scanned spans back into the record's flat byte form.
#[verifier::rlimit(100)]
proof fn lemma_assemble_record(
    s: Seq<u8>,
    q1: int,
    q3: int,
    q4: int,
    q5: int,
    cand: UpdateRecordView,
    ff: RecordForm,
)
    requires
        7 <= q1,
        q1 + 1 <= q3 <= q4 <= q5,
        q5 + 1 == s.len(),
        s.subrange(0, 7) == id_open_bytes(),
        s.subrange(7, q1) == cand.id,
        s.subrange(q1, q1 + 1) == seq![0x22u8],
        s.subrange(q1 + 1, q3) == rotation_seg(cand, ff),
        s.subrange(q3, q4) == position_seg(cand, ff),
        s.subrange(q4, q5) == color_seg(cand, ff),
        s[q5] == 0x7d,
    ensures
        s == record_form_bytes(cand, ff),
{
    let q2 = q1 + 1;
    assert(s.subrange(q5, q5 + 1) =~= seq![0x7du8]);
    assert(s =~= s.subrange(0, 7) + s.subrange(7, q1) + s.subrange(q1, q2) + s.subrange(q2, q3)
        + s.subrange(q3, q4) + s.subrange(q4, q5) + s.subrange(q5, q5 + 1));
    assert(s == record_form_bytes(cand, ff));
}

/// The id prefix of a record: `{"id":"`, the id bytes, the closing quote.
spec fn id_prefix_ok(s: Seq<u8>, q1: int, id: Seq<u8>) -> bool {
    &&& 7 <= q1 < s.len()
    &&& s.subrange(0, 7) == id_open_bytes()
    &&& s.subrange(7, q1) == id
    &&& is_id(id)
    &&& s.subrange(q1, q1 + 1) == seq![0x22u8]
}

/// The span a scanned optional vector field occupies, matching what was
/// found: a tagged bracketed vector, a tagged `null`, or nothing.
spec fn vec_seg_ok(seg: Seq<u8>, tag: Seq<u8>, fld: Option<Vector3>, isnull: bool) -> bool {
    match fld {
        Some(v3) => seg == tag + seq![0x5bu8] + vector_bytes(v3@) + seq![0x5du8] && v3@.wf()
            && !isnull,
        None => if isnull {
            seg == tag + null_bytes()
        } else {
            seg == Seq::<u8>::empty()
        },
    }
}

/// First pass of the parser: cuts the input along the record layout into a
/// candidate record.  On success the input is provably one of the accepted
/// spellings of the candidate; handed the record and form that the input
/// spells, it is certain to find exactly that record.
#[verifier::rlimit(100)]
fn scan(s: &Vec<u8>, Ghost(w): Ghost<Option<(UpdateRecordView, RecordForm)>>) -> (r: Option<
    UpdateRecord,
>)
    requires
        match w {
            Some((v, f)) => v.wf() && f.matches(v) && s@ == record_form_bytes(v, f),
            None => true,
        },
    ensures
        r is Some ==> r->0@.wf() && is_record_encoding(s@, r->0@),
        w is Some ==> r is Some && r->0@ == (w->0).0,
{
    let ghost idlen: int = if w is Some { (w->0).0.id.len() as int } else { 0 };
    proof {
        if w is Some {
            lemma_form_layout((w->0).0, (w->0).1);
        }
    }
    let n = s.len();
    if n < 7 {
        return None;
    }
    if !(s[0] == 0x7b && s[1] == 0x22 && s[2] == 0x69 && s[3] == 0x64 && s[4] == 0x22 && s[5]
        == 0x3a && s[6] == 0x22) {
        proof {
            if w is Some {
                lemma_seg_byte(s@, 0, 7, id_open_bytes(), 0);
                lemma_seg_byte(s@, 0, 7, id_open_bytes(), 1);
                lemma_seg_byte(s@, 0, 7, id_open_bytes(), 2);
                lemma_seg_byte(s@, 0, 7, id_open_bytes(), 3);
                lemma_seg_byte(s@, 0, 7, id_open_bytes(), 4);
                lemma_seg_byte(s@, 0, 7, id_open_bytes(), 5);
                lemma_seg_byte(s@, 0, 7, id_open_bytes(), 6);
                assert(false);
            }
        }
        return None;
    }
    proof {
        assert(s@.subrange(0, 7) =~= id_open_bytes());
        if w is Some {
            assert(s@[7 + idlen] == 0x22);
        }
    }
    let mut p: usize = 7;
    let start = p;
    while p < n && id_byte(s[p])
        invariant
            7 <= p <= n,
            n == s@.len(),
            forall|k: int| 7 <= k < p ==> is_id_byte(#[trigger] s@[k]),
            w is Some ==> p <= 7 + idlen && 7 + idlen + 1 <= n && s@[7 + idlen] == 0x22,
        decreases n - p,
    {
        proof {
            if w is Some && (p as int) == 7 + idlen {
                assert(false);
            }
        }
        p += 1;
    }
    proof {
        if w is Some {
            let v = (w->0).0;
            if (p as int) < 7 + idlen {
                lemma_seg_byte(s@, 7, 7 + idlen, v.id, p - 7);
                assert(is_id_byte(v.id[p - 7]));
                assert(false);
            }
            assert(p == 7 + idlen);
        }
    }
    let id = copy_range(s, start, p);
    if p >= n || s[p] != 0x22 {
        proof {
            if w is Some {
                assert(false);
            }
        }
        return None;
    }
    let ghost q1 = p as int;
    p += 1;
    proof {
        assert(is_id(id@)) by {
            assert forall|i: int| 0 <= i < id@.len() implies is_id_byte(#[trigger] id@[i]) by {
                assert(id@[i] == s@[7 + i]);
            }
        }
        assert(s@.subrange(q1, q1 + 1) =~= seq![0x22u8]);
    }
    scan_fields(s, p, id, Ghost(q1), Ghost(w))
}

/// Second pass stage: the rotation field, at the position just past the
/// id's closing quote.
#[verifier::rlimit(100)]
fn scan_fields(
    s: &Vec<u8>,
    p: usize,
    id: Vec<u8>,
    Ghost(q1): Ghost<int>,
    Ghost(w): Ghost<Option<(UpdateRecordView, RecordForm)>>,
) -> (r: Option<UpdateRecord>)
    requires
        id_prefix_ok(s@, q1, id@),
        p == q1 + 1,
        match w {
            Some((v, f)) => {
                &&& v.wf() && f.matches(v) && s@ == record_form_bytes(v, f)
                &&& q1 == 7 + v.id.len()
                &&& id@ == v.id
            },
            None => true,
        },
    ensures
        r is Some ==> r->0@.wf() && is_record_encoding(s@, r->0@),
        w is Some ==> r is Some && r->0@ == (w->0).0,
{
    let ghost a0: int = if w is Some { 8 + (w->0).0.id.len() as int } else { 0 };
    let ghost a1: int = if w is Some { a0 + rotation_seg((w->0).0, (w->0).1).len() } else { 0 };
    let ghost a2: int = if w is Some { a1 + position_seg((w->0).0, (w->0).1).len() } else { 0 };
    let ghost a3: int = if w is Some { a2 + color_seg((w->0).0, (w->0).1).len() } else { 0 };
    proof {
        if w is Some {
            lemma_form_layout((w->0).0, (w->0).1);
            lemma_form_seg_parts((w->0).0, (w->0).1);
            assert(p == a0);
        }
    }
    let n = s.len();
    let mut rotation: Option<Vector3> = None;
    let ghost mut rot_null: bool = false;
    let ghost mut rseg_found: Seq<u8> = Seq::empty();
    if matches_rotation_tag(s, p) {
        proof {
            if w is Some {
                let v = (w->0).0;
                let f = (w->0).1;
                if v.rotation is None && !f.rot_null {
                    lemma_seg_byte(s@, p as int, p as int + 12, rotation_tag_bytes(), 0);
                    lemma_seg_byte(s@, p as int, p as int + 12, rotation_tag_bytes(), 2);
                    if v.position is Some || f.pos_null {
                        lemma_seg_byte(s@, a1, a2, position_seg(v, f), 2);
                        assert(position_seg(v, f).subrange(0, 12)[2] == position_seg(v, f)[2]);
                    } else if v.color is Some || f.col_null {
                        lemma_seg_byte(s@, a2, a3, color_seg(v, f), 2);
                        assert(color_seg(v, f).subrange(0, 9)[2] == color_seg(v, f)[2]);
                    } else {
                        assert(s@[a3] == 0x7d);
                    }
                    assert(false);
                }
            }
        }
        if p + 12 < n && s[p + 12] == 0x5b {
            proof {
                if w is Some {
                    let v = (w->0).0;
                    let f = (w->0).1;
                    if v.rotation is None {
                        lemma_seg_byte(s@, a0, a1, rotation_seg(v, f), 12);
                        assert(rotation_seg(v, f).subrange(12, 16)[0] == rotation_seg(v, f)[12]);
                        assert(false);
                    }
                    lemma_subseg(
                        s@,
                        a0,
                        a1,
                        rotation_seg(v, f),
                        13,
                        rotation_seg(v, f).len() as int,
                    );
                }
            }
            match scan_vector(s, p + 13, Ghost(if w is Some { (w->0).0.rotation } else { None })) {
                Some((v3, q)) => {
                    proof {
                        lemma_compose_vector_span(s@, p as int, q as int, rotation_tag_bytes(),
                            v3@);
                        rseg_found = rotation_tag_bytes() + seq![0x5bu8] + vector_bytes(v3@)
                            + seq![0x5du8];
                    }
                    rotation = Some(v3);
                    return scan_rest(
                        s,
                        q,
                        id,
                        rotation,
                        Ghost(q1),
                        Ghost(rseg_found),
                        Ghost(rot_null),
                        Ghost(w),
                    );
                },
                None => {
                    return None;
                },
            }
        } else if n - p >= 16 && s[p + 12] == 0x6e && s[p + 13] == 0x75 && s[p + 14] == 0x6c && s[p
            + 15] == 0x6c {
            proof {
                if w is Some {
                    let v = (w->0).0;
                    let f = (w->0).1;
                    if v.rotation is Some {
                        lemma_seg_byte(s@, a0, a1, rotation_seg(v, f), 12);
                        assert(false);
                    }
                }
                lemma_compose_null_span(s@, p as int, rotation_tag_bytes(), 12);
                rot_null = true;
                rseg_found = rotation_tag_bytes() + null_bytes();
            }
            return scan_rest(
                s,
                p + 16,
                id,
                rotation,
                Ghost(q1),
                Ghost(rseg_found),
                Ghost(rot_null),
                Ghost(w),
            );
        } else {
            proof {
                if w is Some {
                    let v = (w->0).0;
                    let f = (w->0).1;
                    if v.rotation is Some {
                        lemma_seg_byte(s@, a0, a1, rotation_seg(v, f), 12);
                        assert(false);
                    } else {
                        lemma_seg_byte(s@, a0, a1, rotation_seg(v, f), 12);
                        lemma_seg_byte(s@, a0, a1, rotation_seg(v, f), 13);
                        lemma_seg_byte(s@, a0, a1, rotation_seg(v, f), 14);
                        lemma_seg_byte(s@, a0, a1, rotation_seg(v, f), 15);
                        assert(rotation_seg(v, f).subrange(12, 16)[0] == rotation_seg(v, f)[12]);
                        assert(rotation_seg(v, f).subrange(12, 16)[1] == rotation_seg(v, f)[13]);
                        assert(rotation_seg(v, f).subrange(12, 16)[2] == rotation_seg(v, f)[14]);
                        assert(rotation_seg(v, f).subrange(12, 16)[3] == rotation_seg(v, f)[15]);
                        assert(false);
                    }
                }
            }
            return None;
        }
    } else {
        proof {
            if w is Some {
                let v = (w->0).0;
                let f = (w->0).1;
                if v.rotation is Some || f.rot_null {
                    lemma_subseg(s@, a0, a1, rotation_seg(v, f), 0, 12);
                    assert(false);
                }
            }
            assert(s@.subrange(p as int, p as int) =~= Seq::<u8>::empty());
        }
        scan_rest(s, p, id, rotation, Ghost(q1), Ghost(rseg_found), Ghost(rot_null), Ghost(w))
    }
}

/// Third pass stage: the position field, just past the rotation span.
#[verifier::rlimit(100)]
fn scan_rest(
    s: &Vec<u8>,
    p: usize,
    id: Vec<u8>,
    rotation: Option<Vector3>,
    Ghost(q1): Ghost<int>,
    Ghost(rseg): Ghost<Seq<u8>>,
    Ghost(rot_null): Ghost<bool>,
    Ghost(w): Ghost<Option<(UpdateRecordView, RecordForm)>>,
) -> (r: Option<UpdateRecord>)
    requires
        id_prefix_ok(s@, q1, id@),
        vec_seg_ok(rseg, rotation_tag_bytes(), rotation, rot_null),
        q1 + 1 + rseg.len() == p <= s@.len(),
        s@.subrange(q1 + 1, p as int) == rseg,
        match w {
            Some((v, f)) => {
                &&& v.wf() && f.matches(v) && s@ == record_form_bytes(v, f)
                &&& q1 == 7 + v.id.len()
                &&& id@ == v.id
                &&& (match rotation {
                    Some(v3) => v.rotation == Some(v3@),
                    None => v.rotation is None,
                })
                &&& rot_null == f.rot_null
            },
            None => true,
        },
    ensures
        r is Some ==> r->0@.wf() && is_record_encoding(s@, r->0@),
        w is Some ==> r is Some && r->0@ == (w->0).0,
{
    let ghost a1: int = if w is Some {
        8 + (w->0).0.id.len() + rotation_seg((w->0).0, (w->0).1).len() as int
    } else {
        0
    };
    let ghost a2: int = if w is Some { a1 + position_seg((w->0).0, (w->0).1).len() } else { 0 };
    let ghost a3: int = if w is Some { a2 + color_seg((w->0).0, (w->0).1).len() } else { 0 };
    proof {
        if w is Some {
            lemma_form_layout((w->0).0, (w->0).1);
            lemma_form_seg_parts((w->0).0, (w->0).1);
            assert(rseg == rotation_seg((w->0).0, (w->0).1));
            assert(p == a1);
        }
    }
    let n = s.len();
    let mut position: Option<Vector3> = None;
    let ghost mut pos_null: bool = false;
    let ghost mut pseg_found: Seq<u8> = Seq::empty();
    if matches_position_tag(s, p) {
        proof {
            if w is Some {
                let v = (w->0).0;
                let f = (w->0).1;
                if v.position is None && !f.pos_null {
                    lemma_seg_byte(s@, p as int, p as int + 12, position_tag_bytes(), 0);
                    lemma_seg_byte(s@, p as int, p as int + 12, position_tag_bytes(), 2);
                    if v.color is Some || f.col_null {
                        lemma_seg_byte(s@, a2, a3, color_seg(v, f), 2);
                        assert(color_seg(v, f).subrange(0, 9)[2] == color_seg(v, f)[2]);
                    } else {
                        assert(s@[a3] == 0x7d);
                    }
                    assert(false);
                }
            }
        }
        if p + 12 < n && s[p + 12] == 0x5b {
            proof {
                if w is Some {
                    let v = (w->0).0;
                    let f = (w->0).1;
                    if v.position is None {
                        lemma_seg_byte(s@, a1, a2, position_seg(v, f), 12);
                        assert(position_seg(v, f).subrange(12, 16)[0] == position_seg(v, f)[12]);
                        assert(false);
                    }
                    lemma_subseg(
                        s@,
                        a1,
                        a2,
                        position_seg(v, f),
                        13,
                        position_seg(v, f).len() as int,
                    );
                }
            }
            match scan_vector(s, p + 13, Ghost(if w is Some { (w->0).0.position } else { None })) {
                Some((v3, q)) => {
                    proof {
                        lemma_compose_vector_span(s@, p as int, q as int, position_tag_bytes(),
                            v3@);
                        pseg_found = position_tag_bytes() + seq![0x5bu8] + vector_bytes(v3@)
                            + seq![0x5du8];
                    }
                    position = Some(v3);
                    return scan_close(
                        s,
                        q,
                        id,
                        rotation,
                        position,
                        Ghost(q1),
                        Ghost(rseg),
                        Ghost(rot_null),
                        Ghost(pseg_found),
                        Ghost(pos_null),
                        Ghost(w),
                    );
                },
                None => {
                    return None;
                },
            }
        } else if n - p >= 16 && s[p + 12] == 0x6e && s[p + 13] == 0x75 && s[p + 14] == 0x6c && s[p
            + 15] == 0x6c {
            proof {
                if w is Some {
                    let v = (w->0).0;
                    let f = (w->0).1;
                    if v.position is Some {
                        lemma_seg_byte(s@, a1, a2, position_seg(v, f), 12);
                        assert(false);
                    }
                }
                lemma_compose_null_span(s@, p as int, position_tag_bytes(), 12);
                pos_null = true;
                pseg_found = position_tag_bytes() + null_bytes();
            }
            return scan_close(
                s,
                p + 16,
                id,
                rotation,
                position,
                Ghost(q1),
                Ghost(rseg),
                Ghost(rot_null),
                Ghost(pseg_found),
                Ghost(pos_null),
                Ghost(w),
            );
        } else {
            proof {
                if w is Some {
                    let v = (w->0).0;
                    let f = (w->0).1;
                    if v.position is Some {
                        lemma_seg_byte(s@, a1, a2, position_seg(v, f), 12);
                        assert(false);
                    } else {
                        lemma_seg_byte(s@, a1, a2, position_seg(v, f), 12);
                        lemma_seg_byte(s@, a1, a2, position_seg(v, f), 13);
                        lemma_seg_byte(s@, a1, a2, position_seg(v, f), 14);
                        lemma_seg_byte(s@, a1, a2, position_seg(v, f), 15);
                        assert(position_seg(v, f).subrange(12, 16)[0] == position_seg(v, f)[12]);
                        assert(position_seg(v, f).subrange(12, 16)[1] == position_seg(v, f)[13]);
                        assert(position_seg(v, f).subrange(12, 16)[2] == position_seg(v, f)[14]);
                        assert(position_seg(v, f).subrange(12, 16)[3] == position_seg(v, f)[15]);
                        assert(false);
                    }
                }
            }
            return None;
        }
    } else {
        proof {
            if w is Some {
                let v = (w->0).0;
                let f = (w->0).1;
                if v.position is Some || f.pos_null {
                    lemma_subseg(s@, a1, a2, position_seg(v, f), 0, 12);
                    assert(false);
                }
            }
            assert(s@.subrange(p as int, p as int) =~= Seq::<u8>::empty());
        }
        scan_close(
            s,
            p,
            id,
            rotation,
            position,
            Ghost(q1),
            Ghost(rseg),
            Ghost(rot_null),
            Ghost(pseg_found),
            Ghost(pos_null),
            Ghost(w),
        )
    }
}

/// Last pass stage: the color field and the closing brace; on success the
/// scanned spans are stitched back into the record's flat byte form.
#[verifier::rlimit(100)]
fn scan_close(
    s: &Vec<u8>,
    p: usize,
    id: Vec<u8>,
    rotation: Option<Vector3>,
    position: Option<Vector3>,
    Ghost(q1): Ghost<int>,
    Ghost(rseg): Ghost<Seq<u8>>,
    Ghost(rot_null): Ghost<bool>,
    Ghost(pseg): Ghost<Seq<u8>>,
    Ghost(pos_null): Ghost<bool>,
    Ghost(w): Ghost<Option<(UpdateRecordView, RecordForm)>>,
) -> (r: Option<UpdateRecord>)
    requires
        id_prefix_ok(s@, q1, id@),
        vec_seg_ok(rseg, rotation_tag_bytes(), rotation, rot_null),
        vec_seg_ok(pseg, position_tag_bytes(), position, pos_null),
        q1 + 1 + rseg.len() + pseg.len() == p <= s@.len(),
        s@.subrange(q1 + 1, q1 + 1 + rseg.len()) == rseg,
        s@.subrange(q1 + 1 + rseg.len(), p as int) == pseg,
        match w {
            Some((v, f)) => {
                &&& v.wf() && f.matches(v) && s@ == record_form_bytes(v, f)
                &&& q1 == 7 + v.id.len()
                &&& id@ == v.id
                &&& (match rotation {
                    Some(v3) => v.rotation == Some(v3@),
                    None => v.rotation is None,
                })
                &&& rot_null == f.rot_null
                &&& (match position {
                    Some(v3) => v.position == Some(v3@),
                    None => v.position is None,
                })
                &&& pos_null == f.pos_null
            },
            None => true,
        },
    ensures
        r is Some ==> r->0@.wf() && is_record_encoding(s@, r->0@),
        w is Some ==> r is Some && r->0@ == (w->0).0,
{
    let ghost a2: int = if w is Some {
        8 + (w->0).0.id.len() + rotation_seg((w->0).0, (w->0).1).len() + position_seg(
            (w->0).0,
            (w->0).1,
        ).len() as int
    } else {
        0
    };
    let ghost a3: int = if w is Some { a2 + color_seg((w->0).0, (w->0).1).len() } else { 0 };
    proof {
        if w is Some {
            lemma_form_layout((w->0).0, (w->0).1);
            lemma_form_seg_parts((w->0).0, (w->0).1);
            assert(rseg == rotation_seg((w->0).0, (w->0).1));
            assert(pseg == position_seg((w->0).0, (w->0).1));
            assert(p == a2);
        }
    }
    let n = s.len();
    let mut color: Option<Color> = None;
    let ghost mut col_null: bool = false;
    let ghost mut col_hex_found: Seq<u8> = Seq::empty();
    let ghost mut cseg_found: Seq<u8> = Seq::empty();
    let mut q5: usize = p;
    if matches_color_tag(s, p) {
        proof {
            if w is Some {
                let v = (w->0).0;
                let f = (w->0).1;
                if v.color is None && !f.col_null {
                    lemma_seg_byte(s@, p as int, p as int + 9, color_tag_bytes(), 0);
                    assert(s@[a3] == 0x7d);
                    assert(false);
                }
            }
        }
        if p + 9 < n && s[p + 9] == 0x22 {
            proof {
                if w is Some {
                    let v = (w->0).0;
                    let f = (w->0).1;
                    if v.color is None {
                        lemma_seg_byte(s@, a2, a3, color_seg(v, f), 9);
                        assert(color_seg(v, f).subrange(9, 13)[0] == color_seg(v, f)[9]);
                        assert(false);
                    }
                    lemma_subseg(s@, a2, a3, color_seg(v, f), 9, color_seg(v, f).len() as int);
                    assert(color_seg(v, f).subrange(9, color_seg(v, f).len() as int) =~= seq![
                        0x22u8,
                    ] + f.col_hex + seq![0x22u8]) by {
                        assert forall|k: int|
                            0 <= k < color_seg(v, f).len() - 9 implies color_seg(v, f).subrange(
                            9,
                            color_seg(v, f).len() as int,
                        )[k] == (seq![0x22u8] + f.col_hex + seq![0x22u8])[k] by {
                            assert(color_seg(v, f).subrange(
                                9,
                                color_seg(v, f).len() as int,
                            )[k] == color_seg(v, f)[9 + k]);
                            if 1 <= k < 8 {
                                assert(f.col_hex[k - 1] == color_seg(v, f).subrange(
                                    10,
                                    10 + f.col_hex.len() as int,
                                )[k - 1]);
                            }
                        }
                    }
                }
            }
            match scan_color(
                s,
                p + 9,
                Ghost(
                    if w is Some && (w->0).0.color is Some {
                        Some((w->0).1.col_hex)
                    } else {
                        None
                    },
                ),
            ) {
                Some((c, q)) => {
                    proof {
                        lemma_compose_color_span(s@, p as int);
                        col_hex_found = s@.subrange(p as int + 10, p as int + 17);
                        cseg_found = color_tag_bytes() + seq![0x22u8] + col_hex_found + seq![
                            0x22u8,
                        ];
                    }
                    color = Some(c);
                    q5 = q;
                },
                None => {
                    return None;
                },
            }
        } else if n - p >= 13 && s[p + 9] == 0x6e && s[p + 10] == 0x75 && s[p + 11] == 0x6c && s[p
            + 12] == 0x6c {
            proof {
                if w is Some {
                    let v = (w->0).0;
                    let f = (w->0).1;
                    if v.color is Some {
                        lemma_seg_byte(s@, a2, a3, color_seg(v, f), 9);
                        assert(false);
                    }
                }
                lemma_compose_null_span(s@, p as int, color_tag_bytes(), 9);
                col_null = true;
                cseg_found = color_tag_bytes() + null_bytes();
            }
            q5 = p + 13;
        } else {
            proof {
                if w is Some {
                    let v = (w->0).0;
                    let f = (w->0).1;
                    if v.color is Some {
                        lemma_seg_byte(s@, a2, a3, color_seg(v, f), 9);
                        assert(false);
                    } else {
                        lemma_seg_byte(s@, a2, a3, color_seg(v, f), 9);
                        lemma_seg_byte(s@, a2, a3, color_seg(v, f), 10);
                        lemma_seg_byte(s@, a2, a3, color_seg(v, f), 11);
                        lemma_seg_byte(s@, a2, a3, color_seg(v, f), 12);
                        assert(color_seg(v, f).subrange(9, 13)[0] == color_seg(v, f)[9]);
                        assert(color_seg(v, f).subrange(9, 13)[1] == color_seg(v, f)[10]);
                        assert(color_seg(v, f).subrange(9, 13)[2] == color_seg(v, f)[11]);
                        assert(color_seg(v, f).subrange(9, 13)[3] == color_seg(v, f)[12]);
                        assert(false);
                    }
                }
            }
            return None;
        }
    } else {
        proof {
            if w is Some {
                let v = (w->0).0;
                let f = (w->0).1;
                if v.color is Some || f.col_null {
                    lemma_subseg(s@, a2, a3, color_seg(v, f), 0, 9);
                    assert(false);
                }
            }
            assert(s@.subrange(p as int, p as int) =~= Seq::<u8>::empty());
        }
    }
    proof {
        if w is Some {
            assert(q5 == a3);
        }
        assert(s@.subrange(p as int, q5 as int) == cseg_found);
    }
    if q5 < n && s[q5] == 0x7d && q5 + 1 == n {
        let cand = UpdateRecord { id, rotation, position, color };
        proof {
            let ff = RecordForm { rot_null, pos_null, col_null, col_hex: col_hex_found };
            assert(ff.matches(cand@));
            assert(rotation_seg(cand@, ff) == rseg);
            assert(position_seg(cand@, ff) == pseg);
            assert(color_seg(cand@, ff) == cseg_found);
            lemma_assemble_record(
                s@,
                q1,
                q1 + 1 + rseg.len() as int,
                q1 + 1 + rseg.len() + pseg.len() as int,
                q5 as int,
                cand@,
                ff,
            );
            assert(is_record_encoding(s@, cand@));
            assert(cand@.wf());
            if w is Some {
                assert(cand@ == (w->0).0);
            }
        }
        Some(cand)
    } else {
        proof {
            if w is Some {
                assert(s@[a3] == 0x7d);
                assert(false);
            }
        }
        None
    }
}

/// Parses one record off the wire.  The accepted spellings are the JSON
/// record forms the system's producers emit: the fields in their declared
/// order, each optional field present, omitted, or `null`, and the color
/// hex in either case.  A parse succeeds precisely on the spellings of
/// well-formed records, and then hands back the one record the input
/// spells.
pub fn parse_record(s: &Vec<u8>) -> (r: Option<UpdateRecord>)
    ensures
        r is Some ==> r->0@.wf() && is_record_encoding(s@, r->0@),
        (exists|v: UpdateRecordView| v.wf() && is_record_encoding(s@, v)) <==> r is Some,
{
    let ghost w: Option<(UpdateRecordView, RecordForm)> = if exists|
        v: UpdateRecordView,
        f: RecordForm,
    | v.wf() && f.matches(v) && s@ == record_form_bytes(v, f) {
        Some(
            choose|v: UpdateRecordView, f: RecordForm|
                v.wf() && f.matches(v) && s@ == record_form_bytes(v, f),
        )
    } else {
        None
    };
    let r = scan(s, Ghost(w));
    proof {
        if r is Some {
            assert(exists|v: UpdateRecordView| v.wf() && is_record_encoding(s@, v)) by {
                assert(r->0@.wf() && is_record_encoding(s@, r->0@));
            }
        } else {
            if exists|v: UpdateRecordView| v.wf() && is_record_encoding(s@, v) {
                let v0 = choose|v: UpdateRecordView| v.wf() && is_record_encoding(s@, v);
                let f0 = choose|f: RecordForm| f.matches(v0) && s@ == record_form_bytes(v0, f);
                assert(v0.wf() && f0.matches(v0) && s@ == record_form_bytes(v0, f0));
                assert(false);
            }
        }
    }
    r
}

} // verus!
