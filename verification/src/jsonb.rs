//! Decoder for the binary JSON (JSONB) column format: a tagged tree with
//! inline small scalars and offset-addressed children. The spec functions in
//! this module are the definition of the format; the executable decoder is
//! proved to follow them.
use vstd::prelude::*;

verus! {

use crate::BinlogError;
use crate::bytes::{le_val, twos_complement, spec_varint, read_le_uint, read_le_int, read_varint};

pub const JSONB_SMALL_OBJECT: u8 = 0x00;

pub const JSONB_LARGE_OBJECT: u8 = 0x01;

pub const JSONB_SMALL_ARRAY: u8 = 0x02;

pub const JSONB_LARGE_ARRAY: u8 = 0x03;

pub const JSONB_LITERAL: u8 = 0x04;

pub const JSONB_INT16: u8 = 0x05;

pub const JSONB_UINT16: u8 = 0x06;

pub const JSONB_INT32: u8 = 0x07;

pub const JSONB_UINT32: u8 = 0x08;

pub const JSONB_INT64: u8 = 0x09;

pub const JSONB_UINT64: u8 = 0x0a;

pub const JSONB_DOUBLE: u8 = 0x0b;

pub const JSONB_STRING: u8 = 0x0c;

/// Spec-level JSON document tree: the mathematical model the contracts speak
/// about. A double is carried as its raw IEEE-754 bit pattern; strings and
/// keys are the raw UTF-8 bytes of the encoding.
#[verifier::ext_equal]
pub ghost enum JsonVal {
    Null,
    Bool(bool),
    Integer(i64),
    Unsigned(u64),
    DoubleBits(u64),
    Str(Seq<u8>),
    Arr(Seq<JsonVal>),
    Obj(Seq<(Seq<u8>, JsonVal)>),
}

/// Decoded JSON document tree. Strings and object keys hold the raw UTF-8
/// bytes of the source encoding; objects preserve the encoding's key order.
/// A double is carried as its raw IEEE-754 bit pattern.
#[derive(Debug, PartialEq, Eq)]
pub enum JsonValue {
    Null,
    Bool(bool),
    Integer(i64),
    Unsigned(u64),
    DoubleBits(u64),
    Str(Vec<u8>),
    Arr(Vec<JsonValue>),
    Obj(Vec<(Vec<u8>, JsonValue)>),
}

impl JsonValue {
    /// The spec-level tree this value stands for.
    pub open spec fn model(self) -> JsonVal
        decreases self,
    {
        match self {
            JsonValue::Null => JsonVal::Null,
            JsonValue::Bool(b) => JsonVal::Bool(b),
            JsonValue::Integer(i) => JsonVal::Integer(i),
            JsonValue::Unsigned(u) => JsonVal::Unsigned(u),
            JsonValue::DoubleBits(d) => JsonVal::DoubleBits(d),
            JsonValue::Str(s) => JsonVal::Str(s@),
            JsonValue::Arr(a) => JsonVal::Arr(
                Seq::new(
                    a@.len(),
                    |i: int|
                        if 0 <= i < a@.len() {
                            a@[i].model()
                        } else {
                            JsonVal::Null
                        },
                ),
            ),
            JsonValue::Obj(o) => JsonVal::Obj(
                Seq::new(
                    o@.len(),
                    |i: int|
                        if 0 <= i < o@.len() {
                            (o@[i].0@, o@[i].1.model())
                        } else {
                            (Seq::empty(), JsonVal::Null)
                        },
                ),
            ),
        }
    }
}

/// A container's per-child type-and-value word, decoded: either a value
/// inlined in the word, or the child's tag with its offset back into the
/// container.
#[verifier::ext_equal]
pub ghost enum GSlot {
    Inline(JsonVal),
    Indirect(u8, nat),
}

/// Width of a container's count, size and offset words.
pub open spec fn container_word(large: bool) -> nat {
    if large {
        4
    } else {
        2
    }
}

/// Value of a literal sub-code byte; out-of-range codes decode leniently to
/// null.
pub open spec fn literal_val(code: u8) -> JsonVal {
    if code == 0x00 {
        JsonVal::Null
    } else if code == 0x01 {
        JsonVal::Bool(true)
    } else if code == 0x02 {
        JsonVal::Bool(false)
    } else {
        JsonVal::Null
    }
}

/// The value entry at position `ep`: a tag byte, then a word of
/// `container_word(large)` bytes. Literals and 16-bit integers are always
/// inlined; 32-bit integers only in large containers, from the 4-byte word;
/// anything else is an offset to the child.
pub open spec fn spec_slot(s: Seq<u8>, ep: int, large: bool) -> GSlot {
    let tag = s[ep];
    let w = ep + 1;
    if tag == JSONB_LITERAL {
        GSlot::Inline(literal_val(s[w]))
    } else if tag == JSONB_INT16 {
        GSlot::Inline(JsonVal::Integer(twos_complement(le_val(s, w, 2), 2) as i64))
    } else if tag == JSONB_UINT16 {
        GSlot::Inline(JsonVal::Unsigned(le_val(s, w, 2) as u64))
    } else if large && tag == JSONB_INT32 {
        GSlot::Inline(JsonVal::Integer(twos_complement(le_val(s, w, 4), 4) as i64))
    } else if large && tag == JSONB_UINT32 {
        GSlot::Inline(JsonVal::Unsigned(le_val(s, w, 4) as u64))
    } else {
        GSlot::Indirect(tag, le_val(s, w, container_word(large)))
    }
}

/// The `n` value entries starting at `vp`.
pub open spec fn spec_slots(s: Seq<u8>, vp: int, n: nat, large: bool) -> Seq<GSlot> {
    Seq::new(n, |i: int| spec_slot(s, vp + i * (1 + container_word(large) as int), large))
}

/// The `n` key entries starting at `kp`: each an offset word of `cw` bytes
/// and a 16-bit key length.
pub open spec fn spec_key_entries(s: Seq<u8>, kp: int, n: nat, cw: nat) -> Seq<(nat, nat)> {
    Seq::new(
        n,
        |i: int|
            (
                le_val(s, kp + i * (cw + 2) as int, cw),
                le_val(s, kp + i * (cw + 2) as int + cw, 2),
            ),
    )
}

/// Start position of key `i` when keys of the declared lengths are read in
/// order from `start`.
pub open spec fn spec_key_pos(entries: Seq<(nat, nat)>, start: int, i: int) -> int
    decreases i,
{
    if i <= 0 {
        start
    } else {
        spec_key_pos(entries, start, i - 1) + entries[i - 1].1
    }
}

/// First error of the child results, or all values in order.
pub open spec fn spec_collect(rs: Seq<Result<JsonVal, BinlogError>>, i: int) -> Result<
    Seq<JsonVal>,
    BinlogError,
>
    decreases rs.len() - i,
{
    if i < 0 || i >= rs.len() {
        Ok(Seq::empty())
    } else {
        match rs[i] {
            Err(e) => Err(e),
            Ok(v) => match spec_collect(rs, i + 1) {
                Err(e) => Err(e),
                Ok(t) => Ok(seq![v] + t),
            },
        }
    }
}

/// The keys of an object, read sequentially from `vend` with the lengths the
/// key entries declare.
pub open spec fn spec_keys(s: Seq<u8>, kentries: Seq<(nat, nat)>, vend: int, n: nat) -> Seq<
    Seq<u8>,
> {
    Seq::new(
        n,
        |i: int|
            s.subrange(
                spec_key_pos(kentries, vend, i),
                spec_key_pos(kentries, vend, i) + kentries[i].1,
            ),
    )
}

/// Keys paired positionally with their values.
pub open spec fn spec_obj_pairs(keys: Seq<Seq<u8>>, vals: Seq<JsonVal>, n: nat) -> Seq<
    (Seq<u8>, JsonVal),
> {
    Seq::new(n, |i: int| (keys[i], vals[i]))
}

/// The results of decoding every child of a container whose value entries
/// start at `vp`.
pub open spec fn spec_child_results(
    s: Seq<u8>,
    pos: int,
    b: nat,
    vp: int,
    n: nat,
    large: bool,
) -> Seq<Result<JsonVal, BinlogError>>
    decreases b, 2int,
{
    Seq::new(n, |i: int| spec_slot_value(s, pos, b, spec_slots(s, vp, n, large)[i]))
}

/// One child of a container at base position `base`: inlined values are
/// taken from the entry; an indirect child is decoded at `base + offset`
/// with the container's remaining budget.
pub open spec fn spec_slot_value(s: Seq<u8>, base: int, b: nat, slot: GSlot) -> Result<
    JsonVal,
    BinlogError,
>
    decreases b, 1int,
{
    match slot {
        GSlot::Inline(v) => Ok(v),
        GSlot::Indirect(tag, off) => match spec_jsonb_typed(s, base + off, b, tag) {
            Ok(p) => Ok(p.0),
            Err(e) => Err(e),
        },
    }
}

/// An object or array at `pos` (`pos` is the first byte of the element
/// count; offsets count from there). `b` is the remaining byte budget after
/// the container's own tag. An object with at least one key decodes to an
/// object; any other container decodes to an array.
pub open spec fn spec_jsonb_container(
    s: Seq<u8>,
    pos: int,
    b: nat,
    large: bool,
    is_object: bool,
) -> Result<(JsonVal, int), BinlogError>
    decreases b, 3int,
{
    let cw = container_word(large);
    if pos + 2 * cw > s.len() {
        Err(BinlogError::CorruptPayload)
    } else {
        let n = le_val(s, pos, cw);
        let size = le_val(s, pos + cw, cw);
        if size > b {
            Err(BinlogError::CorruptPayload)
        } else {
            let kp = pos + 2 * cw;
            let kentries = spec_key_entries(s, kp, n, cw);
            let vp = kp + (if is_object {
                (n * (cw + 2)) as int
            } else {
                0
            });
            let vend = vp + n * (1 + cw) as int;
            if vend > s.len() {
                Err(BinlogError::CorruptPayload)
            } else {
                let keyend = if is_object {
                    spec_key_pos(kentries, vend, n as int)
                } else {
                    vend
                };
                if keyend > s.len() {
                    Err(BinlogError::CorruptPayload)
                } else {
                    match spec_collect(spec_child_results(s, pos, b, vp, n, large), 0) {
                        Err(e) => Err(e),
                        Ok(vals) => if is_object && n > 0 {
                            Ok(
                                (
                                    JsonVal::Obj(
                                        spec_obj_pairs(spec_keys(s, kentries, vend, n), vals, n),
                                    ),
                                    keyend,
                                ),
                            )
                        } else {
                            Ok((JsonVal::Arr(vals), keyend))
                        },
                    }
                }
            }
        }
    }
}

/// A value whose tag byte has already been read: the body starts at `pos`
/// and `budget` bytes of declared length remain, counting the tag. Container
/// headers larger than the remaining budget, truncated reads and overflowing
/// string lengths are corrupt; a tag outside the enumeration is unknown.
pub open spec fn spec_jsonb_typed(s: Seq<u8>, pos: int, budget: nat, tag: u8) -> Result<
    (JsonVal, int),
    BinlogError,
>
    decreases budget, 0int,
{
    if budget == 0 {
        Err(BinlogError::CorruptPayload)
    } else {
        let b = (budget - 1) as nat;
        if tag == JSONB_SMALL_OBJECT || tag == JSONB_LARGE_OBJECT || tag == JSONB_SMALL_ARRAY
            || tag == JSONB_LARGE_ARRAY {
            spec_jsonb_container(
                s,
                pos,
                b,
                tag == JSONB_LARGE_OBJECT || tag == JSONB_LARGE_ARRAY,
                tag == JSONB_SMALL_OBJECT || tag == JSONB_LARGE_OBJECT,
            )
        } else if tag == JSONB_LITERAL {
            if pos + 1 <= s.len() && pos >= 0 {
                Ok((literal_val(s[pos]), pos + 1))
            } else {
                Err(BinlogError::CorruptPayload)
            }
        } else if tag == JSONB_INT16 {
            if pos + 2 <= s.len() {
                Ok((JsonVal::Integer(twos_complement(le_val(s, pos, 2), 2) as i64), pos + 2))
            } else {
                Err(BinlogError::CorruptPayload)
            }
        } else if tag == JSONB_UINT16 {
            if pos + 2 <= s.len() {
                Ok((JsonVal::Unsigned(le_val(s, pos, 2) as u64), pos + 2))
            } else {
                Err(BinlogError::CorruptPayload)
            }
        } else if tag == JSONB_INT32 {
            if pos + 4 <= s.len() {
                Ok((JsonVal::Integer(twos_complement(le_val(s, pos, 4), 4) as i64), pos + 4))
            } else {
                Err(BinlogError::CorruptPayload)
            }
        } else if tag == JSONB_UINT32 {
            if pos + 4 <= s.len() {
                Ok((JsonVal::Unsigned(le_val(s, pos, 4) as u64), pos + 4))
            } else {
                Err(BinlogError::CorruptPayload)
            }
        } else if tag == JSONB_INT64 {
            if pos + 8 <= s.len() {
                Ok((JsonVal::Integer(twos_complement(le_val(s, pos, 8), 8) as i64), pos + 8))
            } else {
                Err(BinlogError::CorruptPayload)
            }
        } else if tag == JSONB_UINT64 {
            if pos + 8 <= s.len() {
                Ok((JsonVal::Unsigned(le_val(s, pos, 8) as u64), pos + 8))
            } else {
                Err(BinlogError::CorruptPayload)
            }
        } else if tag == JSONB_DOUBLE {
            if pos + 8 <= s.len() {
                Ok((JsonVal::DoubleBits(le_val(s, pos, 8) as u64), pos + 8))
            } else {
                Err(BinlogError::CorruptPayload)
            }
        } else if tag == JSONB_STRING {
            match spec_varint(s, pos) {
                None => Err(BinlogError::CorruptPayload),
                Some((len, sp)) => if sp + len <= s.len() {
                    Ok((JsonVal::Str(s.subrange(sp, sp + len)), sp + len))
                } else {
                    Err(BinlogError::CorruptPayload)
                },
            }
        } else {
            Err(BinlogError::UnknownType)
        }
    }
}

/// A whole JSONB blob: the first byte is the root tag; `budget` is the byte
/// length the enclosing column declared for the blob.
pub open spec fn spec_jsonb(s: Seq<u8>, budget: nat) -> Result<(JsonVal, int), BinlogError> {
    if s.len() == 0 {
        Err(BinlogError::CorruptPayload)
    } else {
        spec_jsonb_typed(s, 1, budget, s[0])
    }
}

proof fn lemma_key_pos_shift(entries: Seq<(nat, nat)>, start: int, i: int)
    ensures
        spec_key_pos(entries, start, i) == start + spec_key_pos(entries, 0, i),
    decreases i,
{
    if i > 0 {
        lemma_key_pos_shift(entries, start, i - 1);
    }
}

proof fn lemma_key_pos_mono(entries: Seq<(nat, nat)>, start: int, i: int, j: int)
    requires
        0 <= i <= j,
    ensures
        spec_key_pos(entries, start, i) <= spec_key_pos(entries, start, j),
    decreases j,
{
    if j > i {
        lemma_key_pos_mono(entries, start, i, j - 1);
    }
}

proof fn lemma_collect_of_oks(rs: Seq<Result<JsonVal, BinlogError>>, vs: Seq<JsonVal>, i: int)
    requires
        0 <= i <= rs.len(),
        vs.len() == rs.len() - i,
        forall|j: int|
            i <= j < rs.len() ==> (#[trigger] rs[j]) is Ok && rs[j]->Ok_0 == vs[j - i],
    ensures
        spec_collect(rs, i) == Ok::<Seq<JsonVal>, BinlogError>(vs),
    decreases rs.len() - i,
{
    if i < rs.len() {
        lemma_collect_of_oks(rs, vs.subrange(1, vs.len() as int), i + 1);
        assert(seq![vs[0]] + vs.subrange(1, vs.len() as int) =~= vs);
    } else {
        assert(vs =~= Seq::empty());
    }
}

proof fn lemma_collect_err(rs: Seq<Result<JsonVal, BinlogError>>, k: int, i: int)
    requires
        0 <= k <= i < rs.len(),
        rs[i] is Err,
        forall|j: int| k <= j < i ==> (#[trigger] rs[j]) is Ok,
    ensures
        spec_collect(rs, k) == Err::<Seq<JsonVal>, BinlogError>(rs[i]->Err_0),
    decreases i - k,
{
    if k < i {
        lemma_collect_err(rs, k + 1, i);
    }
}

proof fn lemma_varint_end(s: Seq<u8>, pos: int)
    ensures
        spec_varint(s, pos) matches Some(p) ==> pos < p.1 <= s.len(),
    decreases s.len() - pos,
{
    if 0 <= pos < s.len() && s[pos] >= 0x80 {
        lemma_varint_end(s, pos + 1);
    }
}

/// Decoding at or past the end of the buffer fails exactly as decoding at
/// the end does, whatever the tag.
proof fn lemma_typed_oob(s: Seq<u8>, pos: int, budget: nat, tag: u8)
    requires
        pos >= s.len(),
    ensures
        spec_jsonb_typed(s, pos, budget, tag) == spec_jsonb_typed(s, s.len() as int, budget, tag),
{
    let e = s.len() as int;
    if budget > 0 {
        if tag == JSONB_SMALL_OBJECT || tag == JSONB_LARGE_OBJECT || tag == JSONB_SMALL_ARRAY
            || tag == JSONB_LARGE_ARRAY {
            let large = tag == JSONB_LARGE_OBJECT || tag == JSONB_LARGE_ARRAY;
            let is_object = tag == JSONB_SMALL_OBJECT || tag == JSONB_LARGE_OBJECT;
            let b = (budget - 1) as nat;
            assert(spec_jsonb_container(s, pos, b, large, is_object) == Err::<
                (JsonVal, int),
                BinlogError,
            >(BinlogError::CorruptPayload));
            assert(spec_jsonb_container(s, e, b, large, is_object) == Err::<
                (JsonVal, int),
                BinlogError,
            >(BinlogError::CorruptPayload));
        }
    }
}

/// The value entry word of a literal, executable form of `literal_val`.
fn literal_value(code: u8) -> (v: JsonValue)
    ensures
        v.model() == literal_val(code),
{
    if code == 0x00 {
        JsonValue::Null
    } else if code == 0x01 {
        JsonValue::Bool(true)
    } else if code == 0x02 {
        JsonValue::Bool(false)
    } else {
        JsonValue::Null
    }
}

/// Decoded form of one value entry.
enum Slot {
    Inline(JsonValue),
    Indirect(u8, u64),
}

impl Slot {
    spec fn model(self) -> GSlot {
        match self {
            Slot::Inline(v) => GSlot::Inline(v.model()),
            Slot::Indirect(t, o) => GSlot::Indirect(t, o as nat),
        }
    }
}

/// Decodes a value whose tag has already been read, body at `pos`.
fn jsonb_typed(bytes: &[u8], pos: usize, budget: usize, tag: u8) -> (r: Result<
    (JsonValue, usize),
    BinlogError,
>)
    requires
        pos <= bytes@.len(),
    ensures
        match r {
            Ok(p) => spec_jsonb_typed(bytes@, pos as int, budget as nat, tag) == Ok::<
                (JsonVal, int),
                BinlogError,
            >((p.0.model(), p.1 as int)),
            Err(e) => spec_jsonb_typed(bytes@, pos as int, budget as nat, tag) == Err::<
                (JsonVal, int),
                BinlogError,
            >(e),
        },
    decreases budget, 0int,
{
    let blen = bytes.len();
    if budget == 0 {
        return Err(BinlogError::CorruptPayload);
    }
    let b = budget - 1;
    if tag == JSONB_SMALL_OBJECT || tag == JSONB_LARGE_OBJECT || tag == JSONB_SMALL_ARRAY || tag
        == JSONB_LARGE_ARRAY {
        let large = tag == JSONB_LARGE_OBJECT || tag == JSONB_LARGE_ARRAY;
        let is_object = tag == JSONB_SMALL_OBJECT || tag == JSONB_LARGE_OBJECT;
        jsonb_container(bytes, pos, b, large, is_object)
    } else if tag == JSONB_LITERAL {
        if pos < blen {
            Ok((literal_value(bytes[pos]), pos + 1))
        } else {
            Err(BinlogError::CorruptPayload)
        }
    } else if tag == JSONB_INT16 {
        match read_le_int(bytes, pos, 2) {
            Some(p) => Ok((JsonValue::Integer(p.0), p.1)),
            None => Err(BinlogError::CorruptPayload),
        }
    } else if tag == JSONB_UINT16 {
        match read_le_uint(bytes, pos, 2) {
            Some(p) => Ok((JsonValue::Unsigned(p.0), p.1)),
            None => Err(BinlogError::CorruptPayload),
        }
    } else if tag == JSONB_INT32 {
        match read_le_int(bytes, pos, 4) {
            Some(p) => Ok((JsonValue::Integer(p.0), p.1)),
            None => Err(BinlogError::CorruptPayload),
        }
    } else if tag == JSONB_UINT32 {
        match read_le_uint(bytes, pos, 4) {
            Some(p) => Ok((JsonValue::Unsigned(p.0), p.1)),
            None => Err(BinlogError::CorruptPayload),
        }
    } else if tag == JSONB_INT64 {
        match read_le_int(bytes, pos, 8) {
            Some(p) => Ok((JsonValue::Integer(p.0), p.1)),
            None => Err(BinlogError::CorruptPayload),
        }
    } else if tag == JSONB_UINT64 {
        match read_le_uint(bytes, pos, 8) {
            Some(p) => Ok((JsonValue::Unsigned(p.0), p.1)),
            None => Err(BinlogError::CorruptPayload),
        }
    } else if tag == JSONB_DOUBLE {
        match read_le_uint(bytes, pos, 8) {
            Some(p) => Ok((JsonValue::DoubleBits(p.0), p.1)),
            None => Err(BinlogError::CorruptPayload),
        }
    } else if tag == JSONB_STRING {
        proof {
            lemma_varint_end(bytes@, pos as int);
        }
        match read_varint(bytes, pos) {
            None => Err(BinlogError::CorruptPayload),
            Some((len64, sp)) => {
                if len64 > (blen - sp) as u64 {
                    Err(BinlogError::CorruptPayload)
                } else {
                    let lenus = len64 as usize;
                    let body = vstd::slice::slice_to_vec(
                        vstd::slice::slice_subrange(bytes, sp, sp + lenus),
                    );
                    Ok((JsonValue::Str(body), sp + lenus))
                }
            },
        }
    } else {
        Err(BinlogError::UnknownType)
    }
}

proof fn lemma_mul_le(a: nat, b: nat, c: nat)
    requires
        a <= b,
    ensures
        a * c <= b * c,
{
    assert(a * c <= b * c) by (nonlinear_arith)
        requires
            a <= b,
            c >= 0,
    ;
}

/// Reads the declared key lengths of an object's `nc` key entries at `kp`.
fn read_key_lens(bytes: &[u8], kp: usize, nc: usize, cw: usize) -> (r: (Vec<u64>, u64))
    requires
        cw == 2 || cw == 4,
        kp + nc * ((cw + 2) as int) <= bytes@.len(),
        nc < 0x100000000,
    ensures
        r.0@.len() == nc,
        forall|j: int|
            0 <= j < nc ==> #[trigger] r.0@[j] == spec_key_entries(
                bytes@,
                kp as int,
                nc as nat,
                cw as nat,
            )[j].1,
        r.1 == spec_key_pos(spec_key_entries(bytes@, kp as int, nc as nat, cw as nat), 0, nc as int),
        r.1 <= nc * 0xffff,
{
    let ghost kentries = spec_key_entries(bytes@, kp as int, nc as nat, cw as nat);
    let blen = bytes.len();
    let mut klens: Vec<u64> = Vec::new();
    let mut total: u64 = 0;
    let mut i: usize = 0;
    while i < nc
        invariant
            i <= nc,
            nc < 0x100000000,
            cw == 2 || cw == 4,
            blen == bytes@.len(),
            kp + nc * ((cw + 2) as int) <= blen,
            kentries == spec_key_entries(bytes@, kp as int, nc as nat, cw as nat),
            klens@.len() == i,
            forall|j: int| 0 <= j < i ==> #[trigger] klens@[j] == kentries[j].1,
            total == spec_key_pos(kentries, 0, i as int),
            total <= i * 0xffff,
        decreases nc - i,
    {
        proof {
            lemma_mul_le(i as nat, nc as nat, (cw + 2) as nat);
            lemma_mul_le((i + 1) as nat, nc as nat, (cw + 2) as nat);
            assert(i * ((cw + 2) as int) + (cw + 2) == (i + 1) * ((cw + 2) as int))
                by (nonlinear_arith);
        }
        let ep = kp + i * (cw + 2);
        let (_koff, kmid) = match read_le_uint(bytes, ep, cw) {
            Some(p) => p,
            None => vstd::pervasive::unreached(),
        };
        let (kl, _kend) = match read_le_uint(bytes, kmid, 2) {
            Some(p) => p,
            None => vstd::pervasive::unreached(),
        };
        proof {
            crate::bytes::lemma_le_val_bound(bytes@, kmid as int, 2);
            reveal_with_fuel(crate::bytes::pow256, 3);
            assert(kentries[i as int].1 == le_val(bytes@, kp + i * ((cw + 2) as int) + cw, 2));
            assert((i + 1) * 0xffff == i * 0xffff + 0xffff) by (nonlinear_arith);
            lemma_mul_le((i + 1) as nat, nc as nat, 0xffff);
            assert(nc * 0xffff < 0x1000000000000) by (nonlinear_arith)
                requires
                    nc < 0x100000000,
            ;
        }
        klens.push(kl);
        total = total + kl;
        i = i + 1;
    }
    (klens, total)
}

/// Decodes the `nc` value entries at `vp` into slots.
fn read_slots(bytes: &[u8], vp: usize, nc: usize, large: bool) -> (slots: Vec<Slot>)
    requires
        vp + nc * ((1 + container_word(large)) as int) <= bytes@.len(),
        nc < 0x100000000,
    ensures
        slots@.len() == nc,
        forall|j: int|
            0 <= j < nc ==> (#[trigger] slots@[j]).model() == spec_slots(
                bytes@,
                vp as int,
                nc as nat,
                large,
            )[j],
        forall|j: int|
            0 <= j < nc ==> ((#[trigger] slots@[j]) matches Slot::Indirect(_, o) ==> o
                < 0x100000000),
{
    let cw: usize = if large {
        4
    } else {
        2
    };
    let ghost gslots = spec_slots(bytes@, vp as int, nc as nat, large);
    let blen = bytes.len();
    let mut slots: Vec<Slot> = Vec::new();
    let mut i: usize = 0;
    while i < nc
        invariant
            i <= nc,
            nc < 0x100000000,
            cw == container_word(large),
            blen == bytes@.len(),
            vp + nc * ((1 + cw) as int) <= blen,
            gslots == spec_slots(bytes@, vp as int, nc as nat, large),
            slots@.len() == i,
            forall|j: int| 0 <= j < i ==> (#[trigger] slots@[j]).model() == gslots[j],
            forall|j: int|
                0 <= j < i ==> ((#[trigger] slots@[j]) matches Slot::Indirect(_, o) ==> o
                    < 0x100000000),
        decreases nc - i,
    {
        proof {
            lemma_mul_le(i as nat, nc as nat, (1 + cw) as nat);
            lemma_mul_le((i + 1) as nat, nc as nat, (1 + cw) as nat);
            assert(i * ((1 + cw) as int) + (1 + cw) == (i + 1) * ((1 + cw) as int))
                by (nonlinear_arith);
        }
        let ep = vp + i * (1 + cw);
        let tag = bytes[ep];
        let slot = if tag == JSONB_LITERAL {
            Slot::Inline(literal_value(bytes[ep + 1]))
        } else if tag == JSONB_INT16 {
            let (v, _) = match read_le_int(bytes, ep + 1, 2) {
                Some(p) => p,
                None => vstd::pervasive::unreached(),
            };
            Slot::Inline(JsonValue::Integer(v))
        } else if tag == JSONB_UINT16 {
            let (v, _) = match read_le_uint(bytes, ep + 1, 2) {
                Some(p) => p,
                None => vstd::pervasive::unreached(),
            };
            Slot::Inline(JsonValue::Unsigned(v))
        } else if large && tag == JSONB_INT32 {
            let (v, _) = match read_le_int(bytes, ep + 1, 4) {
                Some(p) => p,
                None => vstd::pervasive::unreached(),
            };
            Slot::Inline(JsonValue::Integer(v))
        } else if large && tag == JSONB_UINT32 {
            let (v, _) = match read_le_uint(bytes, ep + 1, 4) {
                Some(p) => p,
                None => vstd::pervasive::unreached(),
            };
            Slot::Inline(JsonValue::Unsigned(v))
        } else {
            let (off, _) = match read_le_uint(bytes, ep + 1, cw) {
                Some(p) => p,
                None => vstd::pervasive::unreached(),
            };
            proof {
                crate::bytes::lemma_le_val_bound(bytes@, ep + 1, cw as nat);
                reveal_with_fuel(crate::bytes::pow256, 9);
            }
            Slot::Indirect(tag, off)
        };
        slots.push(slot);
        i = i + 1;
    }
    slots
}

/// Reads the object's keys sequentially from `vend`, with the lengths the
/// key entries declare.
fn read_keys(
    bytes: &[u8],
    klens: &Vec<u64>,
    vend: usize,
    keyend: usize,
    Ghost(kentries): Ghost<Seq<(nat, nat)>>,
) -> (keys: Vec<Vec<u8>>)
    requires
        forall|j: int| 0 <= j < klens@.len() ==> #[trigger] klens@[j] == kentries[j].1,
        forall|j: int| 0 <= j < klens@.len() ==> #[trigger] klens@[j] < 0x10000,
        keyend == spec_key_pos(kentries, vend as int, klens@.len() as int),
        keyend <= bytes@.len(),
    ensures
        keys@.len() == klens@.len(),
        forall|j: int|
            0 <= j < klens@.len() ==> (#[trigger] keys@[j])@ == spec_keys(
                bytes@,
                kentries,
                vend as int,
                klens@.len() as nat,
            )[j],
{
    let nc = klens.len();
    let ghost skeys = spec_keys(bytes@, kentries, vend as int, nc as nat);
    let mut keys: Vec<Vec<u8>> = Vec::new();
    let mut kpos: usize = vend;
    let mut i: usize = 0;
    proof {
        lemma_key_pos_mono(kentries, vend as int, 0, nc as int);
    }
    while i < nc
        invariant
            i <= nc,
            nc == klens@.len(),
            vend <= kpos,
            keyend <= bytes@.len(),
            keyend == spec_key_pos(kentries, vend as int, nc as int),
            skeys == spec_keys(bytes@, kentries, vend as int, nc as nat),
            forall|j: int| 0 <= j < nc ==> #[trigger] klens@[j] == kentries[j].1,
            forall|j: int| 0 <= j < nc ==> #[trigger] klens@[j] < 0x10000,
            keys@.len() == i,
            kpos as int == spec_key_pos(kentries, vend as int, i as int),
            forall|j: int| 0 <= j < i ==> (#[trigger] keys@[j])@ == skeys[j],
        decreases nc - i,
    {
        proof {
            lemma_key_pos_mono(kentries, vend as int, i as int + 1, nc as int);
        }
        let kl = klens[i] as usize;
        let key = vstd::slice::slice_to_vec(vstd::slice::slice_subrange(bytes, kpos, kpos + kl));
        keys.push(key);
        kpos = kpos + kl;
        i = i + 1;
    }
    keys
}

/// Decodes one child of a container at base `pos`: an inlined value is
/// taken from its slot, an indirect child is decoded at its offset from the
/// base.
fn decode_one(bytes: &[u8], pos: usize, b: usize, slot: Slot) -> (r: Result<
    JsonValue,
    BinlogError,
>)
    requires
        pos <= bytes@.len(),
        slot matches Slot::Indirect(_, o) ==> o < 0x100000000,
    ensures
        match r {
            Ok(v) => spec_slot_value(bytes@, pos as int, b as nat, slot.model()) == Ok::<
                JsonVal,
                BinlogError,
            >(v.model()),
            Err(e) => spec_slot_value(bytes@, pos as int, b as nat, slot.model()) == Err::<
                JsonVal,
                BinlogError,
            >(e),
        },
    decreases b, 1int,
{
    match slot {
        Slot::Inline(v) => Ok(v),
        Slot::Indirect(ctag, off) => {
            let blen = bytes.len();
            let cpos: usize = if off <= (blen - pos) as u64 {
                pos + (off as usize)
            } else {
                blen
            };
            proof {
                if off > (blen - pos) as u64 {
                    lemma_typed_oob(bytes@, pos + off, b as nat, ctag);
                }
            }
            match jsonb_typed(bytes, cpos, b, ctag) {
                Ok(p) => Ok(p.0),
                Err(e) => Err(e),
            }
        },
    }
}

/// Decodes every child of a container at base `pos` from its slots.
#[verifier::loop_isolation(false)]
fn decode_children(
    bytes: &[u8],
    pos: usize,
    b: usize,
    slots: Vec<Slot>,
    vp: usize,
    large: bool,
) -> (r: Result<Vec<JsonValue>, BinlogError>)
    requires
        pos <= bytes@.len(),
        forall|j: int|
            0 <= j < slots@.len() ==> (#[trigger] slots@[j]).model() == spec_slots(
                bytes@,
                vp as int,
                slots@.len() as nat,
                large,
            )[j],
        forall|j: int|
            0 <= j < slots@.len() ==> ((#[trigger] slots@[j]) matches Slot::Indirect(_, o) ==> o
                < 0x100000000),
    ensures
        match r {
            Ok(values) => values@.len() == slots@.len() && forall|j: int|
                0 <= j < slots@.len() ==> (#[trigger] spec_child_results(
                    bytes@,
                    pos as int,
                    b as nat,
                    vp as int,
                    slots@.len() as nat,
                    large,
                )[j]) is Ok && values@[j].model() == spec_child_results(
                    bytes@,
                    pos as int,
                    b as nat,
                    vp as int,
                    slots@.len() as nat,
                    large,
                )[j]->Ok_0,
            Err(e) => spec_collect(
                spec_child_results(
                    bytes@,
                    pos as int,
                    b as nat,
                    vp as int,
                    slots@.len() as nat,
                    large,
                ),
                0,
            ) == Err::<Seq<JsonVal>, BinlogError>(e),
        },
    decreases b, 2int,
{
    let nc = slots.len();
    let ghost gslots = spec_slots(bytes@, vp as int, nc as nat, large);
    let ghost results = spec_child_results(bytes@, pos as int, b as nat, vp as int, nc as nat, large);
    let mut slots = slots;
    let mut values: Vec<JsonValue> = Vec::new();
    let mut i: usize = 0;
    while i < nc
        invariant
            i <= nc,
            pos <= bytes@.len(),
            gslots == spec_slots(bytes@, vp as int, nc as nat, large),
            results == spec_child_results(bytes@, pos as int, b as nat, vp as int, nc as nat, large),
            results.len() == nc,
            slots@.len() == nc - i,
            forall|j: int| 0 <= j < nc - i ==> (#[trigger] slots@[j]).model() == gslots[i + j],
            forall|j: int|
                0 <= j < nc - i ==> ((#[trigger] slots@[j]) matches Slot::Indirect(_, o) ==> o
                    < 0x100000000),
            values@.len() == i,
            forall|j: int|
                0 <= j < i ==> (#[trigger] results[j]) is Ok && values@[j].model()
                    == results[j]->Ok_0,
        decreases nc - i,
    {
        let slot = slots.remove(0);
        proof {
            assert(slot.model() == gslots[i as int]);
            assert(results[i as int] == spec_slot_value(
                bytes@,
                pos as int,
                b as nat,
                gslots[i as int],
            ));
        }
        match decode_one(bytes, pos, b, slot) {
            Ok(v) => {
                values.push(v);
            },
            Err(e) => {
                proof {
                    lemma_collect_err(results, 0, i as int);
                }
                return Err(e);
            },
        }
        i = i + 1;
    }
    Ok(values)
}

/// Pairs each key with its value, positionally.
fn pair_up(keys: Vec<Vec<u8>>, values: Vec<JsonValue>) -> (pairs: Vec<(Vec<u8>, JsonValue)>)
    requires
        keys@.len() == values@.len(),
    ensures
        pairs@.len() == keys@.len(),
        forall|j: int|
            0 <= j < keys@.len() ==> (#[trigger] pairs@[j]).0@ == keys@[j]@ && pairs@[j].1.model()
                == values@[j].model(),
{
    let ghost okeys = keys@;
    let ghost ovals = values@;
    let nc = keys.len();
    let mut keys = keys;
    let mut values = values;
    let mut pairs: Vec<(Vec<u8>, JsonValue)> = Vec::new();
    let mut i: usize = 0;
    while i < nc
        invariant
            i <= nc,
            nc == okeys.len(),
            nc == ovals.len(),
            keys@.len() == nc - i,
            values@.len() == nc - i,
            pairs@.len() == i,
            forall|j: int| 0 <= j < nc - i ==> #[trigger] keys@[j] == okeys[i + j],
            forall|j: int| 0 <= j < nc - i ==> #[trigger] values@[j] == ovals[i + j],
            forall|j: int|
                0 <= j < i ==> (#[trigger] pairs@[j]).0@ == okeys[j]@ && pairs@[j].1.model()
                    == ovals[j].model(),
        decreases nc - i,
    {
        let k = keys.remove(0);
        let v = values.remove(0);
        pairs.push((k, v));
        i = i + 1;
    }
    pairs
}

/// Decodes an object or array whose element count starts at `pos`, with `b`
/// bytes of budget left after the container's tag.
#[verifier::rlimit(60)]
fn jsonb_container(bytes: &[u8], pos: usize, b: usize, large: bool, is_object: bool) -> (r: Result<
    (JsonValue, usize),
    BinlogError,
>)
    requires
        pos <= bytes@.len(),
    ensures
        match r {
            Ok(p) => spec_jsonb_container(bytes@, pos as int, b as nat, large, is_object) == Ok::<
                (JsonVal, int),
                BinlogError,
            >((p.0.model(), p.1 as int)),
            Err(e) => spec_jsonb_container(bytes@, pos as int, b as nat, large, is_object) == Err::<
                (JsonVal, int),
                BinlogError,
            >(e),
        },
    decreases b, 3int,
{
    let blen = bytes.len();
    let cw: usize = if large {
        4
    } else {
        2
    };
    let (n64, p1) = match read_le_uint(bytes, pos, cw) {
        Some(p) => p,
        None => {
            return Err(BinlogError::CorruptPayload);
        },
    };
    let (size, _p2) = match read_le_uint(bytes, p1, cw) {
        Some(p) => p,
        None => {
            return Err(BinlogError::CorruptPayload);
        },
    };
    proof {
        crate::bytes::lemma_le_val_bound(bytes@, pos as int, cw as nat);
        crate::bytes::lemma_le_val_bound(bytes@, pos + cw, cw as nat);
        reveal_with_fuel(crate::bytes::pow256, 9);
    }
    if size > b as u64 {
        return Err(BinlogError::CorruptPayload);
    }
    let kp = pos + 2 * cw;
    let n = n64 as usize;
    proof {
        assert(n64 * ((cw + 2) as u64) <= 0x600000000) by (nonlinear_arith)
            requires
                n64 < 0x100000000,
                cw <= 4,
        ;
        assert(n64 * ((1 + cw) as u64) <= 0x500000000) by (nonlinear_arith)
            requires
                n64 < 0x100000000,
                cw <= 4,
        ;
    }
    let ereg: u64 = if is_object {
        n64 * ((cw + 2) as u64)
    } else {
        0
    };
    let vreg: u64 = n64 * ((1 + cw) as u64);
    if ereg + vreg > (blen - kp) as u64 {
        return Err(BinlogError::CorruptPayload);
    }
    let vp = kp + (ereg as usize);
    let vend = vp + (vreg as usize);
    let ghost kentries = spec_key_entries(bytes@, kp as int, n as nat, cw as nat);

    let (klens, total_klen) = if is_object {
        read_key_lens(bytes, kp, n, cw)
    } else {
        (Vec::new(), 0u64)
    };
    proof {
        lemma_key_pos_shift(kentries, vend as int, n as int);
    }
    if is_object && total_klen > (blen - vend) as u64 {
        return Err(BinlogError::CorruptPayload);
    }
    let keyend = if is_object {
        vend + (total_klen as usize)
    } else {
        vend
    };

    let slots = read_slots(bytes, vp, n, large);
    proof {
        assert forall|j: int| 0 <= j < n implies kentries[j].1 < 0x10000 by {
            crate::bytes::lemma_le_val_bound(bytes@, kp + j * ((cw + 2) as int) + cw, 2);
            reveal_with_fuel(crate::bytes::pow256, 3);
        }
    }
    let keys = if is_object {
        read_keys(bytes, &klens, vend, keyend, Ghost(kentries))
    } else {
        Vec::new()
    };
    let ghost skeys = spec_keys(bytes@, kentries, vend as int, n as nat);
    let ghost results = spec_child_results(bytes@, pos as int, b as nat, vp as int, n as nat, large);

    match decode_children(bytes, pos, b, slots, vp, large) {
        Err(e) => Err(e),
        Ok(values) => {
            let ghost vmodels = Seq::new(values@.len() as nat, |k: int| values@[k].model());
            proof {
                lemma_collect_of_oks(results, vmodels, 0);
            }
            if is_object && n > 0 {
                let pairs = pair_up(keys, values);
                let out = JsonValue::Obj(pairs);
                proof {
                    assert(out.model() matches JsonVal::Obj(m) && m =~= spec_obj_pairs(
                        skeys,
                        vmodels,
                        n as nat,
                    ));
                }
                Ok((out, keyend))
            } else {
                let out = JsonValue::Arr(values);
                proof {
                    assert(out.model() matches JsonVal::Arr(m) && m =~= vmodels);
                }
                Ok((out, keyend))
            }
        },
    }
}

/// Decodes one JSONB blob: the first byte is the root type tag and
/// `var_length` is the byte budget the enclosing column declared.
pub fn read_binary_json(bytes: &[u8], var_length: usize) -> (r: Result<JsonValue, BinlogError>)
    ensures
        match r {
            Ok(v) => spec_jsonb(bytes@, var_length as nat) matches Ok(p) && p.0 == v.model(),
            Err(e) => spec_jsonb(bytes@, var_length as nat) == Err::<(JsonVal, int), BinlogError>(
                e,
            ),
        },
{
    if bytes.len() == 0 {
        return Err(BinlogError::CorruptPayload);
    }
    let tag = bytes[0];
    match jsonb_typed(bytes, 1, var_length, tag) {
        Ok(p) => Ok(p.0),
        Err(e) => Err(e),
    }
}

} // verus!
