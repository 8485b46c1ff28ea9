//! The per-call decode context: typed, bounds-checked access to the
//! argument frames of one request, and the reply a handler builds.
use vstd::prelude::*;
use vstd::slice::{slice_subrange, slice_to_vec};
use vstd::utf8::{decode_utf8, valid_utf8};

use crate::wire::{
    arg_type_of, be_nat, le_nat, lemma_le_nat_bound, lemma_pow256_values, pow256, read_be32,
    push_bytes, read_le, to_signed, RpcCallArgType, ARG_HEADER_LEN, RPC_ARG_MAGIC,
};

verus! {

/// Why an argument could not be decoded.
#[derive(Clone, Copy, Debug, PartialEq, Eq, Structural)]
pub enum ArgError {
    /// A frame header or payload runs past the end of the buffer.
    Truncated,
    /// A frame does not start with the argument sentinel.
    BadMagic,
    /// A frame carries a tag outside the argument kinds.
    UnknownType,
    /// A frame's kind differs from the kind declared for its position.
    TypeMismatch,
    /// The index lies beyond the function's declared arguments.
    Undeclared,
    /// A string payload is not UTF-8.
    InvalidUtf8,
}

/// What a decoded argument stands for.
pub enum ArgModel {
    Int(int),
    Text(Seq<char>),
    Bytes(Seq<u8>),
}

/// The payload size that the frame header at the start of `b` declares.
pub open spec fn frame_size(b: Seq<u8>) -> nat {
    le_nat(b.subrange(8, 12))
}

/// The sentinel at the start of `b`.
pub open spec fn frame_magic(b: Seq<u8>) -> nat {
    be_nat(b.subrange(0, 4))
}

/// What remains of `b` after walking past `n` whole argument frames.
pub open spec fn skip_frames(b: Seq<u8>, n: nat) -> Result<Seq<u8>, ArgError>
    decreases n,
{
    if n == 0 {
        Ok(b)
    } else if b.len() < 12 {
        Err(ArgError::Truncated)
    } else if frame_magic(b) != RPC_ARG_MAGIC as nat {
        Err(ArgError::BadMagic)
    } else if b.len() - 12 < frame_size(b) {
        Err(ArgError::Truncated)
    } else {
        skip_frames(b.subrange(12 + frame_size(b) as int, b.len() as int), (n - 1) as nat)
    }
}

/// The payload of argument `index` in `data`, checked against the
/// declared kinds `types`.
pub open spec fn frame_payload(types: Seq<RpcCallArgType>, data: Seq<u8>, index: nat) -> Result<
    Seq<u8>,
    ArgError,
> {
    if index >= types.len() {
        Err(ArgError::Undeclared)
    } else {
        match skip_frames(data, index) {
            Err(e) => Err(e),
            Ok(rest) => if rest.len() < 12 {
                Err(ArgError::Truncated)
            } else if frame_magic(rest) != RPC_ARG_MAGIC as nat {
                Err(ArgError::BadMagic)
            } else {
                match arg_type_of(le_nat(rest.subrange(4, 8))) {
                    None => Err(ArgError::UnknownType),
                    Some(t) => if t != types[index as int] {
                        Err(ArgError::TypeMismatch)
                    } else if rest.len() - 12 < frame_size(rest) {
                        Err(ArgError::Truncated)
                    } else {
                        Ok(rest.subrange(12, 12 + frame_size(rest) as int))
                    },
                }
            },
        }
    }
}

/// The byte width of an integer kind (zero for the other kinds).
pub open spec fn int_width(t: RpcCallArgType) -> nat {
    match t {
        RpcCallArgType::Int8 | RpcCallArgType::UInt8 => 1,
        RpcCallArgType::Int16 | RpcCallArgType::UInt16 => 2,
        RpcCallArgType::Int32 | RpcCallArgType::UInt32 => 4,
        RpcCallArgType::Int64 | RpcCallArgType::UInt64 => 8,
        _ => 0,
    }
}

/// Whether `t` is one of the signed integer kinds.
pub open spec fn is_signed(t: RpcCallArgType) -> bool {
    t is Int8 || t is Int16 || t is Int32 || t is Int64
}

/// What a payload means when read as kind `t`: an integer from its leading
/// bytes, a string from UTF-8, or the bytes themselves.
pub open spec fn decode_payload(t: RpcCallArgType, p: Seq<u8>) -> Result<ArgModel, ArgError> {
    match t {
        RpcCallArgType::String => if valid_utf8(p) {
            Ok(ArgModel::Text(decode_utf8(p)))
        } else {
            Err(ArgError::InvalidUtf8)
        },
        RpcCallArgType::Buffer | RpcCallArgType::Protobuf => Ok(ArgModel::Bytes(p)),
        _ => if p.len() < int_width(t) {
            Err(ArgError::Truncated)
        } else {
            let u = le_nat(p.take(int_width(t) as int));
            Ok(ArgModel::Int(if is_signed(t) { to_signed(u, int_width(t)) } else { u as int }))
        },
    }
}

/// Argument `index` of `data` read as kind `t`.
pub open spec fn decode_arg(
    types: Seq<RpcCallArgType>,
    data: Seq<u8>,
    index: nat,
    t: RpcCallArgType,
) -> Result<ArgModel, ArgError> {
    match frame_payload(types, data, index) {
        Err(e) => Err(e),
        Ok(p) => decode_payload(t, p),
    }
}

/// Relates a decoded byte buffer to its model.
pub open spec fn bytes_result(r: Result<Vec<u8>, ArgError>, m: Result<Seq<u8>, ArgError>) -> bool {
    match m {
        Ok(p) => r is Ok && r->Ok_0@ == p,
        Err(e) => r == Err::<Vec<u8>, ArgError>(e),
    }
}

/// Relates a decoded integer to its model.
pub open spec fn int_result(r: Result<int, ArgError>, m: Result<ArgModel, ArgError>) -> bool {
    match m {
        Ok(v) => r is Ok && v == ArgModel::Int(r->Ok_0),
        Err(e) => r == Err::<int, ArgError>(e),
    }
}

/// Widens a decoded integer result for comparison with its model.
pub open spec fn widen<T: Integer>(r: Result<T, ArgError>) -> Result<int, ArgError> {
    match r {
        Ok(v) => Ok(v as int),
        Err(e) => Err(e),
    }
}

/// Relies on `std::str::from_utf8`: it accepts exactly the valid UTF-8
/// byte strings, and the string it gives holds the characters they encode.
#[verifier::external_body]
fn string_from_utf8(b: &[u8]) -> (r: Option<String>)
    ensures
        r is Some <==> valid_utf8(b@),
        r is Some ==> r->0@ == decode_utf8(b@),
{
    match std::str::from_utf8(b) {
        Ok(s) => Some(s.to_string()),
        Err(_) => None,
    }
}

/// The reply bytes a handler accumulates during one call.
struct RpcReply {
    data: Vec<u8>,
}

/// Decode context of one call: the declared argument kinds of the called
/// function, the raw argument frames of the request, and the reply.
pub struct RpcCallContext {
    argtypes: Vec<RpcCallArgType>,
    data: Vec<u8>,
    reply: RpcReply,
}

impl RpcCallContext {
    /// The argument kinds the called function declares.
    pub closed spec fn spec_argtypes(&self) -> Seq<RpcCallArgType> {
        self.argtypes@
    }

    /// The raw argument frames.
    pub closed spec fn spec_data(&self) -> Seq<u8> {
        self.data@
    }

    /// The reply written so far.
    pub closed spec fn spec_reply(&self) -> Seq<u8> {
        self.reply.data@
    }

    /// Argument `index` read as kind `t`.
    pub open spec fn read_as(&self, index: nat, t: RpcCallArgType) -> Result<ArgModel, ArgError> {
        decode_arg(self.spec_argtypes(), self.spec_data(), index, t)
    }

    /// A context for a call with declared kinds `argtypes` over the argument
    /// frames `data`, with an empty reply.
    pub fn new(argtypes: Vec<RpcCallArgType>, data: Vec<u8>) -> (r: RpcCallContext)
        ensures
            r.spec_argtypes() == argtypes@,
            r.spec_data() == data@,
            r.spec_reply() == Seq::<u8>::empty(),
    {
        RpcCallContext { argtypes, data, reply: RpcReply { data: Vec::new() } }
    }

    /// Appends `bytes` to the reply.
    pub fn write_reply(&mut self, bytes: &[u8])
        ensures
            final(self).spec_reply() == old(self).spec_reply() + bytes@,
            final(self).spec_argtypes() == old(self).spec_argtypes(),
            final(self).spec_data() == old(self).spec_data(),
    {
        push_bytes(&mut self.reply.data, bytes);
    }

    /// The reply written so far.
    pub fn reply(&self) -> (r: &[u8])
        ensures
            r@ == self.spec_reply(),
    {
        self.reply.data.as_slice()
    }

    /// The payload of argument `index`: walks the frames from the start,
    /// skipping `index` of them, then checks the target frame's sentinel,
    /// its kind against the declared one, and its size against the buffer.
    pub fn get_narg(&self, index: u32) -> (r: Result<Vec<u8>, ArgError>)
        ensures
            bytes_result(r, frame_payload(self.spec_argtypes(), self.spec_data(), index as nat)),
    {
        if index as usize >= self.argtypes.len() {
            return Err(ArgError::Undeclared);
        }
        let data = self.data.as_slice();
        let len = data.len();
        let ghost n = index as nat;
        proof {
            lemma_pow256_values();
        }
        let mut pos: usize = 0;
        let mut k: u32 = 0;
        proof {
            assert(data@.subrange(0, len as int) =~= data@);
        }
        while k < index
            invariant
                k <= index,
                n == index as nat,
                (index as int) < self.argtypes@.len(),
                pos <= len,
                len == data@.len(),
                data@ == self.data@,
                pow256(4) == 0x1_0000_0000,
                skip_frames(data@, n) == skip_frames(
                    data@.subrange(pos as int, len as int),
                    (n - k) as nat,
                ),
            decreases index - k,
        {
            let ghost rest = data@.subrange(pos as int, len as int);
            if len - pos < ARG_HEADER_LEN {
                return Err(ArgError::Truncated);
            }
            let magic = read_be32(data, pos);
            proof {
                assert(rest.subrange(0, 4) =~= data@.subrange(pos as int, pos + 4));
            }
            if magic != RPC_ARG_MAGIC {
                return Err(ArgError::BadMagic);
            }
            let size64 = read_le(data, pos + 8, 4);
            proof {
                assert(rest.subrange(8, 12) =~= data@.subrange(pos + 8, pos + 12));
                lemma_le_nat_bound(data@.subrange(pos + 8, pos + 12));
            }
            let size = size64 as usize;
            if len - pos - ARG_HEADER_LEN < size {
                return Err(ArgError::Truncated);
            }
            proof {
                assert(rest.subrange(12 + size, rest.len() as int) =~= data@.subrange(
                    pos + 12 + size,
                    len as int,
                ));
            }
            pos = pos + ARG_HEADER_LEN + size;
            k = k + 1;
        }
        let ghost rest = data@.subrange(pos as int, len as int);
        proof {
            assert(n - k == 0);
        }
        if len - pos < ARG_HEADER_LEN {
            return Err(ArgError::Truncated);
        }
        let magic = read_be32(data, pos);
        proof {
            assert(rest.subrange(0, 4) =~= data@.subrange(pos as int, pos + 4));
        }
        if magic != RPC_ARG_MAGIC {
            return Err(ArgError::BadMagic);
        }
        let tag = read_le(data, pos + 4, 4);
        proof {
            assert(rest.subrange(4, 8) =~= data@.subrange(pos + 4, pos + 8));
            lemma_le_nat_bound(data@.subrange(pos + 4, pos + 8));
        }
        let argtype = match RpcCallArgType::from_tag(tag as u32) {
            Some(t) => t,
            None => {
                return Err(ArgError::UnknownType);
            },
        };
        if argtype != self.argtypes[index as usize] {
            return Err(ArgError::TypeMismatch);
        }
        let size64 = read_le(data, pos + 8, 4);
        proof {
            assert(rest.subrange(8, 12) =~= data@.subrange(pos + 8, pos + 12));
            lemma_le_nat_bound(data@.subrange(pos + 8, pos + 12));
        }
        let size = size64 as usize;
        if len - pos - ARG_HEADER_LEN < size {
            return Err(ArgError::Truncated);
        }
        let start = pos + ARG_HEADER_LEN;
        let payload = slice_to_vec(slice_subrange(data, start, start + size));
        proof {
            assert(rest.subrange(12, 12 + size) =~= data@.subrange(start as int, start + size));
        }
        Ok(payload)
    }

    /// The leading `width` bytes of argument `index`, as a little-endian number.
    fn get_uint(&self, index: u32, width: usize) -> (r: Result<u64, ArgError>)
        requires
            width <= 8,
        ensures
            match frame_payload(self.spec_argtypes(), self.spec_data(), index as nat) {
                Err(e) => r == Err::<u64, ArgError>(e),
                Ok(p) => if p.len() < width {
                    r == Err::<u64, ArgError>(ArgError::Truncated)
                } else {
                    r is Ok && r->Ok_0 as nat == le_nat(p.take(width as int))
                },
            },
    {
        let p = match self.get_narg(index) {
            Ok(p) => p,
            Err(e) => {
                return Err(e);
            },
        };
        if p.len() < width {
            return Err(ArgError::Truncated);
        }
        let v = read_le(p.as_slice(), 0, width);
        proof {
            assert(p@.subrange(0, width as int) =~= p@.take(width as int));
        }
        Ok(v)
    }

    /// Argument `index` as an `i8`.
    pub fn get_arg_i8(&self, index: u32) -> (r: Result<i8, ArgError>)
        ensures
            int_result(widen(r), self.read_as(index as nat, RpcCallArgType::Int8)),
    {
        proof {
            lemma_pow256_values();
        }
        match self.get_uint(index, 1) {
            Err(e) => Err(e),
            Ok(u) => {
                proof {
                    let p = frame_payload(self.spec_argtypes(), self.spec_data(), index as nat)->Ok_0;
                    lemma_le_nat_bound(p.take(1));
                }
                if u >= 0x80 {
                    Ok(((u - 0x80) as i8) - 0x7f - 1)
                } else {
                    Ok(u as i8)
                }
            },
        }
    }

    /// Argument `index` as an `i16`.
    pub fn get_arg_i16(&self, index: u32) -> (r: Result<i16, ArgError>)
        ensures
            int_result(widen(r), self.read_as(index as nat, RpcCallArgType::Int16)),
    {
        proof {
            lemma_pow256_values();
        }
        match self.get_uint(index, 2) {
            Err(e) => Err(e),
            Ok(u) => {
                proof {
                    let p = frame_payload(self.spec_argtypes(), self.spec_data(), index as nat)->Ok_0;
                    lemma_le_nat_bound(p.take(2));
                }
                if u >= 0x8000 {
                    Ok(((u - 0x8000) as i16) - 0x7fff - 1)
                } else {
                    Ok(u as i16)
                }
            },
        }
    }

    /// Argument `index` as an `i32`.
    pub fn get_arg_i32(&self, index: u32) -> (r: Result<i32, ArgError>)
        ensures
            int_result(widen(r), self.read_as(index as nat, RpcCallArgType::Int32)),
    {
        proof {
            lemma_pow256_values();
        }
        match self.get_uint(index, 4) {
            Err(e) => Err(e),
            Ok(u) => {
                proof {
                    let p = frame_payload(self.spec_argtypes(), self.spec_data(), index as nat)->Ok_0;
                    lemma_le_nat_bound(p.take(4));
                }
                if u >= 0x8000_0000 {
                    Ok(((u - 0x8000_0000) as i32) - 0x7fff_ffff - 1)
                } else {
                    Ok(u as i32)
                }
            },
        }
    }

    /// Argument `index` as an `i64`.
    pub fn get_arg_i64(&self, index: u32) -> (r: Result<i64, ArgError>)
        ensures
            int_result(widen(r), self.read_as(index as nat, RpcCallArgType::Int64)),
    {
        proof {
            lemma_pow256_values();
        }
        match self.get_uint(index, 8) {
            Err(e) => Err(e),
            Ok(u) => {
                if u >= 0x8000_0000_0000_0000 {
                    Ok(((u - 0x8000_0000_0000_0000) as i64) - 0x7fff_ffff_ffff_ffff - 1)
                } else {
                    Ok(u as i64)
                }
            },
        }
    }

    /// Argument `index` as a `u8`.
    pub fn get_arg_u8(&self, index: u32) -> (r: Result<u8, ArgError>)
        ensures
            int_result(widen(r), self.read_as(index as nat, RpcCallArgType::UInt8)),
    {
        proof {
            lemma_pow256_values();
        }
        match self.get_uint(index, 1) {
            Err(e) => Err(e),
            Ok(u) => {
                proof {
                    let p = frame_payload(self.spec_argtypes(), self.spec_data(), index as nat)->Ok_0;
                    lemma_le_nat_bound(p.take(1));
                }
                Ok(u as u8)
            },
        }
    }

    /// Argument `index` as a `u16`.
    pub fn get_arg_u16(&self, index: u32) -> (r: Result<u16, ArgError>)
        ensures
            int_result(widen(r), self.read_as(index as nat, RpcCallArgType::UInt16)),
    {
        proof {
            lemma_pow256_values();
        }
        match self.get_uint(index, 2) {
            Err(e) => Err(e),
            Ok(u) => {
                proof {
                    let p = frame_payload(self.spec_argtypes(), self.spec_data(), index as nat)->Ok_0;
                    lemma_le_nat_bound(p.take(2));
                }
                Ok(u as u16)
            },
        }
    }

    /// Argument `index` as a `u32`.
    pub fn get_arg_u32(&self, index: u32) -> (r: Result<u32, ArgError>)
        ensures
            int_result(widen(r), self.read_as(index as nat, RpcCallArgType::UInt32)),
    {
        proof {
            lemma_pow256_values();
        }
        match self.get_uint(index, 4) {
            Err(e) => Err(e),
            Ok(u) => {
                proof {
                    let p = frame_payload(self.spec_argtypes(), self.spec_data(), index as nat)->Ok_0;
                    lemma_le_nat_bound(p.take(4));
                }
                Ok(u as u32)
            },
        }
    }

    /// Argument `index` as a `u64`.
    pub fn get_arg_u64(&self, index: u32) -> (r: Result<u64, ArgError>)
        ensures
            int_result(widen(r), self.read_as(index as nat, RpcCallArgType::UInt64)),
    {
        self.get_uint(index, 8)
    }

    /// Argument `index` as a string: its payload must be UTF-8.
    pub fn get_arg_string(&self, index: u32) -> (r: Result<String, ArgError>)
        ensures
            match self.read_as(index as nat, RpcCallArgType::String) {
                Ok(m) => r is Ok && m == ArgModel::Text(r->Ok_0@),
                Err(e) => r == Err::<String, ArgError>(e),
            },
    {
        match self.get_narg(index) {
            Err(e) => Err(e),
            Ok(p) => match string_from_utf8(p.as_slice()) {
                Some(s) => Ok(s),
                None => Err(ArgError::InvalidUtf8),
            },
        }
    }

    /// Argument `index` as raw bytes.
    pub fn get_arg_buffer(&self, index: u32) -> (r: Result<Vec<u8>, ArgError>)
        ensures
            match self.read_as(index as nat, RpcCallArgType::Buffer) {
                Ok(m) => r is Ok && m == ArgModel::Bytes(r->Ok_0@),
                Err(e) => r == Err::<Vec<u8>, ArgError>(e),
            },
    {
        self.get_narg(index)
    }
}

} // verus!
