//! Typed argument values and their encoding as argument and request frames.
use vstd::prelude::*;
use vstd::utf8::encode_utf8;

use crate::context::{
    decode_arg, decode_payload, frame_payload, int_width, is_signed, skip_frames, ArgModel,
};
use crate::wire::{
    arg_type_of, be_bytes, le_bytes, le_nat, lemma_be_round_trip, lemma_le_bytes_len,
    lemma_le_round_trip, lemma_pow256_values, pow256, push_be32, push_bytes, push_le, to_unsigned,
    RpcCallArgType, RPC_ARG_MAGIC, RPC_REQUEST_MAGIC,
};

verus! {

broadcast use vstd::utf8::encode_utf8_valid_utf8, vstd::utf8::encode_utf8_decode_utf8;

/// One argument of a call, of one of the supported kinds.
pub enum RpcArgValue {
    Int8(i8),
    Int16(i16),
    Int32(i32),
    Int64(i64),
    UInt8(u8),
    UInt16(u16),
    UInt32(u32),
    UInt64(u64),
    String(String),
    Buffer(Vec<u8>),
}

/// The kind an argument value is sent as.
pub open spec fn value_type(v: RpcArgValue) -> RpcCallArgType {
    match v {
        RpcArgValue::Int8(_) => RpcCallArgType::Int8,
        RpcArgValue::Int16(_) => RpcCallArgType::Int16,
        RpcArgValue::Int32(_) => RpcCallArgType::Int32,
        RpcArgValue::Int64(_) => RpcCallArgType::Int64,
        RpcArgValue::UInt8(_) => RpcCallArgType::UInt8,
        RpcArgValue::UInt16(_) => RpcCallArgType::UInt16,
        RpcArgValue::UInt32(_) => RpcCallArgType::UInt32,
        RpcArgValue::UInt64(_) => RpcCallArgType::UInt64,
        RpcArgValue::String(_) => RpcCallArgType::String,
        RpcArgValue::Buffer(_) => RpcCallArgType::Buffer,
    }
}

/// What an argument value stands for.
pub open spec fn value_model(v: RpcArgValue) -> ArgModel {
    match v {
        RpcArgValue::Int8(x) => ArgModel::Int(x as int),
        RpcArgValue::Int16(x) => ArgModel::Int(x as int),
        RpcArgValue::Int32(x) => ArgModel::Int(x as int),
        RpcArgValue::Int64(x) => ArgModel::Int(x as int),
        RpcArgValue::UInt8(x) => ArgModel::Int(x as int),
        RpcArgValue::UInt16(x) => ArgModel::Int(x as int),
        RpcArgValue::UInt32(x) => ArgModel::Int(x as int),
        RpcArgValue::UInt64(x) => ArgModel::Int(x as int),
        RpcArgValue::String(s) => ArgModel::Text(s@),
        RpcArgValue::Buffer(b) => ArgModel::Bytes(b@),
    }
}

/// The payload bytes of an argument value: an integer in little-endian
/// two's complement, a string in UTF-8, a buffer as it is.
pub open spec fn value_payload(v: RpcArgValue) -> Seq<u8> {
    match v {
        RpcArgValue::Int8(x) => le_bytes(to_unsigned(x as int, 1), 1),
        RpcArgValue::Int16(x) => le_bytes(to_unsigned(x as int, 2), 2),
        RpcArgValue::Int32(x) => le_bytes(to_unsigned(x as int, 4), 4),
        RpcArgValue::Int64(x) => le_bytes(to_unsigned(x as int, 8), 8),
        RpcArgValue::UInt8(x) => le_bytes(x as nat, 1),
        RpcArgValue::UInt16(x) => le_bytes(x as nat, 2),
        RpcArgValue::UInt32(x) => le_bytes(x as nat, 4),
        RpcArgValue::UInt64(x) => le_bytes(x as nat, 8),
        RpcArgValue::String(s) => encode_utf8(s@),
        RpcArgValue::Buffer(b) => b@,
    }
}

/// Whether each payload's length fits the 32-bit size field.
pub open spec fn payloads_fit(vs: Seq<RpcArgValue>) -> bool {
    forall|i: int| 0 <= i < vs.len() ==> #[trigger] value_payload(vs[i]).len() < 0x1_0000_0000
}

/// The kinds of a list of argument values.
pub open spec fn kinds_of(vs: Seq<RpcArgValue>) -> Seq<RpcCallArgType> {
    vs.map_values(|v: RpcArgValue| value_type(v))
}

/// An argument frame of kind `t` around payload `p`.
pub open spec fn frame_bytes(t: RpcCallArgType, p: Seq<u8>) -> Seq<u8> {
    be_bytes(RPC_ARG_MAGIC as nat, 4) + le_bytes(t.spec_tag() as nat, 4) + le_bytes(p.len(), 4) + p
}

/// The frames of a list of argument values, one after another.
pub open spec fn frames(vs: Seq<RpcArgValue>) -> Seq<u8>
    decreases vs.len(),
{
    if vs.len() == 0 {
        Seq::empty()
    } else {
        frame_bytes(value_type(vs[0]), value_payload(vs[0])) + frames(vs.drop_first())
    }
}

/// A request frame: header, then the argument frames `args`.
pub open spec fn request_bytes(call_id: u32, function_id: u32, args_count: u32, args: Seq<u8>) -> Seq<u8> {
    be_bytes(RPC_REQUEST_MAGIC as nat, 4) + le_bytes(call_id as nat, 4) + le_bytes(
        function_id as nat,
        4,
    ) + le_bytes(args_count as nat, 4) + args
}

/// Consecutive argument frames, each given by its kind and its payload.
pub open spec fn raw_frames(fs: Seq<(RpcCallArgType, Seq<u8>)>) -> Seq<u8>
    decreases fs.len(),
{
    if fs.len() == 0 {
        Seq::empty()
    } else {
        frame_bytes(fs[0].0, fs[0].1) + raw_frames(fs.drop_first())
    }
}

/// Whether each payload of `fs` fits the 32-bit size field.
pub open spec fn raw_fit(fs: Seq<(RpcCallArgType, Seq<u8>)>) -> bool {
    forall|i: int| 0 <= i < fs.len() ==> #[trigger] fs[i].1.len() < 0x1_0000_0000
}

/// The kinds of a list of (kind, payload) frames.
pub open spec fn raw_kinds(fs: Seq<(RpcCallArgType, Seq<u8>)>) -> Seq<RpcCallArgType> {
    fs.map_values(|f: (RpcCallArgType, Seq<u8>)| f.0)
}

/// The (kind, payload) frame of each argument value.
pub open spec fn value_frames(vs: Seq<RpcArgValue>) -> Seq<(RpcCallArgType, Seq<u8>)> {
    vs.map_values(|v: RpcArgValue| (value_type(v), value_payload(v)))
}

/// Whether `v` is a value of the integer kind `t`.
pub open spec fn int_in_range(t: RpcCallArgType, v: int) -> bool {
    if is_signed(t) {
        -(pow256(int_width(t)) / 2) <= v < pow256(int_width(t)) / 2
    } else {
        0 <= v < pow256(int_width(t))
    }
}

impl RpcArgValue {
    /// The kind this value is sent as.
    pub fn kind(&self) -> (r: RpcCallArgType)
        ensures
            r == value_type(*self),
    {
        match self {
            RpcArgValue::Int8(_) => RpcCallArgType::Int8,
            RpcArgValue::Int16(_) => RpcCallArgType::Int16,
            RpcArgValue::Int32(_) => RpcCallArgType::Int32,
            RpcArgValue::Int64(_) => RpcCallArgType::Int64,
            RpcArgValue::UInt8(_) => RpcCallArgType::UInt8,
            RpcArgValue::UInt16(_) => RpcCallArgType::UInt16,
            RpcArgValue::UInt32(_) => RpcCallArgType::UInt32,
            RpcArgValue::UInt64(_) => RpcCallArgType::UInt64,
            RpcArgValue::String(_) => RpcCallArgType::String,
            RpcArgValue::Buffer(_) => RpcCallArgType::Buffer,
        }
    }
}

/// Appends the payload of `v`.
fn push_payload(out: &mut Vec<u8>, v: &RpcArgValue)
    ensures
        final(out)@ == old(out)@ + value_payload(*v),
{
    proof {
        lemma_pow256_values();
    }
    match v {
        RpcArgValue::Int8(x) => {
            let u: u64 = if *x < 0 {
                (*x as i16 + 0x100) as u64
            } else {
                *x as u64
            };
            push_le(out, u, 1);
        },
        RpcArgValue::Int16(x) => {
            let u: u64 = if *x < 0 {
                (*x as i32 + 0x1_0000) as u64
            } else {
                *x as u64
            };
            push_le(out, u, 2);
        },
        RpcArgValue::Int32(x) => {
            let u: u64 = if *x < 0 {
                (*x as i64 + 0x1_0000_0000) as u64
            } else {
                *x as u64
            };
            push_le(out, u, 4);
        },
        RpcArgValue::Int64(x) => {
            let u: u64 = if *x < 0 {
                ((*x + 0x7fff_ffff_ffff_ffff) + 1) as u64 + 0x8000_0000_0000_0000
            } else {
                *x as u64
            };
            push_le(out, u, 8);
        },
        RpcArgValue::UInt8(x) => push_le(out, *x as u64, 1),
        RpcArgValue::UInt16(x) => push_le(out, *x as u64, 2),
        RpcArgValue::UInt32(x) => push_le(out, *x as u64, 4),
        RpcArgValue::UInt64(x) => push_le(out, *x, 8),
        RpcArgValue::String(s) => push_bytes(out, s.as_str().as_bytes()),
        RpcArgValue::Buffer(b) => push_bytes(out, b.as_slice()),
    }
}

/// The length of the payload of `v`.
fn payload_len(v: &RpcArgValue) -> (r: usize)
    ensures
        r == value_payload(*v).len(),
{
    proof {
        lemma_le_bytes_len(0, 1);
    }
    match v {
        RpcArgValue::Int8(x) => {
            proof {
                lemma_le_bytes_len(to_unsigned(*x as int, 1), 1);
            }
            1
        },
        RpcArgValue::Int16(x) => {
            proof {
                lemma_le_bytes_len(to_unsigned(*x as int, 2), 2);
            }
            2
        },
        RpcArgValue::Int32(x) => {
            proof {
                lemma_le_bytes_len(to_unsigned(*x as int, 4), 4);
            }
            4
        },
        RpcArgValue::Int64(x) => {
            proof {
                lemma_le_bytes_len(to_unsigned(*x as int, 8), 8);
            }
            8
        },
        RpcArgValue::UInt8(x) => {
            proof {
                lemma_le_bytes_len(*x as nat, 1);
            }
            1
        },
        RpcArgValue::UInt16(x) => {
            proof {
                lemma_le_bytes_len(*x as nat, 2);
            }
            2
        },
        RpcArgValue::UInt32(x) => {
            proof {
                lemma_le_bytes_len(*x as nat, 4);
            }
            4
        },
        RpcArgValue::UInt64(x) => {
            proof {
                lemma_le_bytes_len(*x as nat, 8);
            }
            8
        },
        RpcArgValue::String(s) => s.as_str().as_bytes().len(),
        RpcArgValue::Buffer(b) => b.len(),
    }
}

/// Encodes one argument frame.
pub fn encode_arg(v: &RpcArgValue) -> (r: Vec<u8>)
    requires
        value_payload(*v).len() < 0x1_0000_0000,
    ensures
        r@ == frame_bytes(value_type(*v), value_payload(*v)),
{
    let mut out: Vec<u8> = Vec::new();
    push_be32(&mut out, RPC_ARG_MAGIC);
    push_le(&mut out, v.kind().tag() as u64, 4);
    push_le(&mut out, payload_len(v) as u64, 4);
    push_payload(&mut out, v);
    proof {
        assert(out@ =~= frame_bytes(value_type(*v), value_payload(*v)));
    }
    out
}

/// Encodes a list of arguments as consecutive argument frames.
pub fn encode_args(args: &[RpcArgValue]) -> (r: Vec<u8>)
    requires
        payloads_fit(args@),
    ensures
        r@ == frames(args@),
{
    let mut out: Vec<u8> = Vec::new();
    let mut i: usize = 0;
    proof {
        assert(args@.subrange(0, args@.len() as int) =~= args@);
    }
    while i < args.len()
        invariant
            i <= args@.len(),
            payloads_fit(args@),
            out@ + frames(args@.subrange(i as int, args@.len() as int)) == frames(args@),
        decreases args@.len() - i,
    {
        let ghost rest = args@.subrange(i as int, args@.len() as int);
        let ghost before = out@;
        let frame = encode_arg(&args[i]);
        out.append(&mut frame.clone());
        proof {
            assert(rest.drop_first() =~= args@.subrange(i + 1, args@.len() as int));
            assert(rest[0] == args@[i as int]);
            assert(out@ + frames(args@.subrange(i + 1, args@.len() as int)) =~= before + frames(rest));
        }
        i = i + 1;
    }
    proof {
        assert(frames(args@.subrange(i as int, args@.len() as int)) =~= Seq::<u8>::empty());
        assert(out@ + Seq::<u8>::empty() =~= out@);
    }
    out
}

/// Encodes a request frame that calls `function_id` with `args`.
pub fn encode_request(call_id: u32, function_id: u32, args: &[RpcArgValue]) -> (r: Vec<u8>)
    requires
        payloads_fit(args@),
        args@.len() < 0x1_0000_0000,
    ensures
        r@ == request_bytes(call_id, function_id, args@.len() as u32, frames(args@)),
{
    let mut out: Vec<u8> = Vec::new();
    push_be32(&mut out, RPC_REQUEST_MAGIC);
    push_le(&mut out, call_id as u64, 4);
    push_le(&mut out, function_id as u64, 4);
    push_le(&mut out, args.len() as u64, 4);
    let body = encode_args(args);
    push_bytes(&mut out, body.as_slice());
    proof {
        assert(out@ =~= request_bytes(call_id, function_id, args@.len() as u32, frames(args@)));
    }
    out
}

/// Every kind's wire tag names that kind.
pub proof fn lemma_tag_names_kind(t: RpcCallArgType)
    ensures
        arg_type_of(t.spec_tag() as nat) == Some(t),
{
}

/// The header of a frame of kind `t` around `p`, followed by `rest`, reads
/// back as that kind and size, with `p` and `rest` after it.
proof fn lemma_frame_parse(t: RpcCallArgType, p: Seq<u8>, rest: Seq<u8>)
    requires
        p.len() < 0x1_0000_0000,
    ensures
        ({
            let b = frame_bytes(t, p) + rest;
            &&& b.len() >= 12 + p.len()
            &&& crate::context::frame_magic(b) == RPC_ARG_MAGIC as nat
            &&& le_nat(b.subrange(4, 8)) == t.spec_tag() as nat
            &&& crate::context::frame_size(b) == p.len()
            &&& b.subrange(12, 12 + p.len() as int) == p
            &&& b.subrange(12 + p.len() as int, b.len() as int) == rest
        }),
{
    lemma_pow256_values();
    let b = frame_bytes(t, p) + rest;
    lemma_be_round_trip(RPC_ARG_MAGIC as nat, 4);
    lemma_le_round_trip(t.spec_tag() as nat, 4);
    lemma_le_round_trip(p.len(), 4);
    assert(b.subrange(0, 4) =~= be_bytes(RPC_ARG_MAGIC as nat, 4));
    assert(b.subrange(4, 8) =~= le_bytes(t.spec_tag() as nat, 4));
    assert(b.subrange(8, 12) =~= le_bytes(p.len(), 4));
    assert(b.subrange(12, 12 + p.len() as int) =~= p);
    assert(b.subrange(12 + p.len() as int, b.len() as int) =~= rest);
}

/// Walking past `k` frames of a frame list leaves the frames from `k` on.
proof fn lemma_skip_raw(fs: Seq<(RpcCallArgType, Seq<u8>)>, k: nat)
    requires
        raw_fit(fs),
        k <= fs.len(),
    ensures
        skip_frames(raw_frames(fs), k) == Ok::<Seq<u8>, crate::context::ArgError>(
            raw_frames(fs.subrange(k as int, fs.len() as int)),
        ),
    decreases k,
{
    if k == 0 {
        assert(fs.subrange(0, fs.len() as int) =~= fs);
    } else {
        assert(fs[0].1.len() < 0x1_0000_0000);
        lemma_frame_parse(fs[0].0, fs[0].1, raw_frames(fs.drop_first()));
        let tail = fs.drop_first();
        assert(raw_fit(tail)) by {
            assert forall|i: int| 0 <= i < tail.len() implies #[trigger] tail[i].1.len()
                < 0x1_0000_0000 by {
                assert(tail[i] == fs[i + 1]);
            }
        }
        lemma_skip_raw(tail, (k - 1) as nat);
        assert(tail.subrange(k - 1, tail.len() as int) =~= fs.subrange(k as int, fs.len() as int));
    }
}

/// The frames of a list of values are the frames of their (kind, payload)
/// pairs.
proof fn lemma_value_frames(vs: Seq<RpcArgValue>)
    requires
        payloads_fit(vs),
    ensures
        frames(vs) == raw_frames(value_frames(vs)),
        raw_fit(value_frames(vs)),
        raw_kinds(value_frames(vs)) == kinds_of(vs),
    decreases vs.len(),
{
    let fs = value_frames(vs);
    assert(raw_kinds(fs) =~= kinds_of(vs));
    if vs.len() > 0 {
        let tail = vs.drop_first();
        assert(payloads_fit(tail)) by {
            assert forall|i: int| 0 <= i < tail.len() implies #[trigger] value_payload(tail[i]).len()
                < 0x1_0000_0000 by {
                assert(tail[i] == vs[i + 1]);
            }
        }
        lemma_value_frames(tail);
        assert(fs.drop_first() =~= value_frames(tail));
    }
}

/// Walking past `k` frames of an encoded list leaves the frames of the
/// values from `k` on.
proof fn lemma_skip_encoded(vs: Seq<RpcArgValue>, k: nat)
    requires
        payloads_fit(vs),
        k <= vs.len(),
    ensures
        skip_frames(frames(vs), k) == Ok::<Seq<u8>, crate::context::ArgError>(
            frames(vs.subrange(k as int, vs.len() as int)),
        ),
{
    let rest = vs.subrange(k as int, vs.len() as int);
    lemma_value_frames(vs);
    lemma_skip_raw(value_frames(vs), k);
    assert(payloads_fit(rest)) by {
        assert forall|i: int| 0 <= i < rest.len() implies #[trigger] value_payload(rest[i]).len()
            < 0x1_0000_0000 by {
            assert(rest[i] == vs[i + k]);
        }
    }
    lemma_value_frames(rest);
    assert(value_frames(rest) =~= value_frames(vs).subrange(k as int, vs.len() as int));
}

/// Round trip over any frame list: with the frames' kinds as the declared
/// kinds, the payload of argument `k` is the `k`-th payload, whatever the
/// kinds and payloads around it are; so reading argument `k` as kind `t`
/// reads that payload as `t`.
pub proof fn lemma_frames_round_trip(fs: Seq<(RpcCallArgType, Seq<u8>)>, k: int, t: RpcCallArgType)
    requires
        raw_fit(fs),
        0 <= k < fs.len(),
    ensures
        frame_payload(raw_kinds(fs), raw_frames(fs), k as nat) == Ok::<
            Seq<u8>,
            crate::context::ArgError,
        >(fs[k].1),
        decode_arg(raw_kinds(fs), raw_frames(fs), k as nat, t) == decode_payload(t, fs[k].1),
{
    lemma_skip_raw(fs, k as nat);
    let rest = fs.subrange(k, fs.len() as int);
    assert(rest[0] == fs[k]);
    assert(fs[k].1.len() < 0x1_0000_0000);
    lemma_frame_parse(fs[k].0, fs[k].1, raw_frames(rest.drop_first()));
    lemma_tag_names_kind(fs[k].0);
}

/// An integer of kind `t`, written as its little-endian two's complement
/// bytes, reads back as that integer.
pub proof fn lemma_int_payload(t: RpcCallArgType, v: int)
    requires
        int_width(t) > 0,
        int_in_range(t, v),
    ensures
        decode_payload(t, le_bytes(to_unsigned(v, int_width(t)), int_width(t))) == Ok::<
            ArgModel,
            crate::context::ArgError,
        >(ArgModel::Int(v)),
{
    lemma_pow256_values();
    let w = int_width(t);
    let u = to_unsigned(v, w);
    lemma_le_round_trip(u, w);
    assert(le_bytes(u, w).take(w as int) =~= le_bytes(u, w));
}

/// The UTF-8 bytes of a string read back as that string.
pub proof fn lemma_text_payload(s: Seq<char>)
    ensures
        decode_payload(RpcCallArgType::String, encode_utf8(s)) == Ok::<
            ArgModel,
            crate::context::ArgError,
        >(ArgModel::Text(s)),
{
}

/// A buffer or message payload reads back as the same bytes.
pub proof fn lemma_bytes_payload(p: Seq<u8>)
    ensures
        decode_payload(RpcCallArgType::Buffer, p) == Ok::<ArgModel, crate::context::ArgError>(
            ArgModel::Bytes(p),
        ),
        decode_payload(RpcCallArgType::Protobuf, p) == Ok::<ArgModel, crate::context::ArgError>(
            ArgModel::Bytes(p),
        ),
{
}

/// A value's payload, read as the value's own kind, gives back the value.
proof fn lemma_payload_round_trip(v: RpcArgValue)
    ensures
        decode_payload(value_type(v), value_payload(v)) == Ok::<ArgModel, crate::context::ArgError>(
            value_model(v),
        ),
{
    lemma_pow256_values();
    let t = value_type(v);
    let p = value_payload(v);
    match v {
        RpcArgValue::Int8(x) => {
            lemma_le_round_trip(to_unsigned(x as int, 1), 1);
            assert(p.take(1) =~= p);
        },
        RpcArgValue::Int16(x) => {
            lemma_le_round_trip(to_unsigned(x as int, 2), 2);
            assert(p.take(2) =~= p);
        },
        RpcArgValue::Int32(x) => {
            lemma_le_round_trip(to_unsigned(x as int, 4), 4);
            assert(p.take(4) =~= p);
        },
        RpcArgValue::Int64(x) => {
            lemma_le_round_trip(to_unsigned(x as int, 8), 8);
            assert(p.take(8) =~= p);
        },
        RpcArgValue::UInt8(x) => {
            lemma_le_round_trip(x as nat, 1);
            assert(p.take(1) =~= p);
        },
        RpcArgValue::UInt16(x) => {
            lemma_le_round_trip(x as nat, 2);
            assert(p.take(2) =~= p);
        },
        RpcArgValue::UInt32(x) => {
            lemma_le_round_trip(x as nat, 4);
            assert(p.take(4) =~= p);
        },
        RpcArgValue::UInt64(x) => {
            lemma_le_round_trip(x as nat, 8);
            assert(p.take(8) =~= p);
        },
        RpcArgValue::String(s) => {},
        RpcArgValue::Buffer(b) => {},
    }
}

/// Round trip: in a buffer made by encoding a list of argument values,
/// with the values' kinds as the declared kinds, reading argument `k` as
/// its declared kind gives back the `k`-th value, whatever the values
/// around it are.
pub proof fn lemma_round_trip(vs: Seq<RpcArgValue>, k: int)
    requires
        payloads_fit(vs),
        0 <= k < vs.len(),
    ensures
        frame_payload(kinds_of(vs), frames(vs), k as nat) == Ok::<
            Seq<u8>,
            crate::context::ArgError,
        >(value_payload(vs[k])),
        decode_arg(kinds_of(vs), frames(vs), k as nat, value_type(vs[k])) == Ok::<
            ArgModel,
            crate::context::ArgError,
        >(value_model(vs[k])),
{
    lemma_skip_encoded(vs, k as nat);
    let rest = vs.subrange(k, vs.len() as int);
    assert(rest[0] == vs[k]);
    assert(rest.drop_first() =~= vs.subrange(k + 1, vs.len() as int));
    assert(value_payload(vs[k]).len() < 0x1_0000_0000);
    lemma_frame_parse(value_type(vs[k]), value_payload(vs[k]), frames(rest.drop_first()));
    lemma_tag_names_kind(value_type(vs[k]));
    lemma_payload_round_trip(vs[k]);
}

/// Type mismatch: where the kind declared for position `k` differs from the
/// kind of the value encoded there, reading argument `k` fails with
/// `TypeMismatch`, whatever kind it is read as.
pub proof fn lemma_type_mismatch(
    vs: Seq<RpcArgValue>,
    types: Seq<RpcCallArgType>,
    k: int,
    t: RpcCallArgType,
)
    requires
        payloads_fit(vs),
        0 <= k < vs.len(),
        k < types.len(),
        types[k] != value_type(vs[k]),
    ensures
        frame_payload(types, frames(vs), k as nat) == Err::<Seq<u8>, crate::context::ArgError>(
            crate::context::ArgError::TypeMismatch,
        ),
        decode_arg(types, frames(vs), k as nat, t) == Err::<ArgModel, crate::context::ArgError>(
            crate::context::ArgError::TypeMismatch,
        ),
{
    lemma_skip_encoded(vs, k as nat);
    let rest = vs.subrange(k, vs.len() as int);
    assert(rest[0] == vs[k]);
    assert(value_payload(vs[k]).len() < 0x1_0000_0000);
    lemma_frame_parse(value_type(vs[k]), value_payload(vs[k]), frames(rest.drop_first()));
    lemma_tag_names_kind(value_type(vs[k]));
}

} // verus!
