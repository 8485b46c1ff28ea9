//! Byte-level layout of argument, request and response frames.
//!
//! Every multi-byte integer is little-endian except the three magic
//! sentinels, which are big-endian.
use vstd::prelude::*;

verus! {

/// Sentinel that opens every argument frame ("RPCA").
pub const RPC_ARG_MAGIC: u32 = 0x5250_4341;

/// Sentinel that opens every request frame ("RPC>").
pub const RPC_REQUEST_MAGIC: u32 = 0x5250_433E;

/// Sentinel that opens every response frame ("RPC<").
pub const RPC_RESPONSE_MAGIC: u32 = 0x5250_433C;

/// Length of an argument frame header: magic, argtype and size.
pub const ARG_HEADER_LEN: usize = 12;

/// Length of a request frame header: magic, call id, function id and count.
pub const REQUEST_HEADER_LEN: usize = 16;

/// `256` raised to `n`: the number of values that `n` bytes can hold.
pub open spec fn pow256(n: nat) -> nat
    decreases n,
{
    if n == 0 {
        1
    } else {
        256 * pow256((n - 1) as nat)
    }
}

/// The number that `b` spells in little-endian order.
pub open spec fn le_nat(b: Seq<u8>) -> nat
    decreases b.len(),
{
    if b.len() == 0 {
        0
    } else {
        b[0] as nat + 256 * le_nat(b.drop_first())
    }
}

/// The number that `b` spells in big-endian order.
pub open spec fn be_nat(b: Seq<u8>) -> nat
    decreases b.len(),
{
    if b.len() == 0 {
        0
    } else {
        be_nat(b.drop_last()) * 256 + b.last() as nat
    }
}

/// The `n` low-order bytes of `v`, least significant first.
pub open spec fn le_bytes(v: nat, n: nat) -> Seq<u8>
    decreases n,
{
    if n == 0 {
        Seq::empty()
    } else {
        seq![(v % 256) as u8] + le_bytes(v / 256, (n - 1) as nat)
    }
}

/// The `n` low-order bytes of `v`, most significant first.
pub open spec fn be_bytes(v: nat, n: nat) -> Seq<u8>
    decreases n,
{
    if n == 0 {
        Seq::empty()
    } else {
        be_bytes(v / 256, (n - 1) as nat) + seq![(v % 256) as u8]
    }
}

/// Reads a number stored in `n` bytes as two's complement.
pub open spec fn to_signed(u: nat, n: nat) -> int {
    if u >= pow256(n) / 2 {
        u - pow256(n)
    } else {
        u as int
    }
}

/// Writes a signed number as the `n`-byte two's complement pattern.
pub open spec fn to_unsigned(v: int, n: nat) -> nat {
    if v < 0 {
        (v + pow256(n)) as nat
    } else {
        v as nat
    }
}

/// Result codes carried by a response frame.
#[derive(Clone, Copy, Debug, PartialEq, Eq, Structural)]
pub enum RpcCallResult {
    Success,
    InvalidArg,
    ServerInvalidFunction,
    ServerInternalError,
}

impl RpcCallResult {
    /// The value this result takes on the wire.
    pub open spec fn spec_code(self) -> u64 {
        match self {
            RpcCallResult::Success => 0,
            RpcCallResult::InvalidArg => 1,
            RpcCallResult::ServerInvalidFunction => 2,
            RpcCallResult::ServerInternalError => 3,
        }
    }

    pub fn code(self) -> (r: u64)
        ensures
            r == self.spec_code(),
    {
        match self {
            RpcCallResult::Success => 0,
            RpcCallResult::InvalidArg => 1,
            RpcCallResult::ServerInvalidFunction => 2,
            RpcCallResult::ServerInternalError => 3,
        }
    }
}

/// The primitive kinds an argument position can declare.
#[derive(Clone, Copy, Debug, PartialEq, Eq, Structural)]
pub enum RpcCallArgType {
    Int8,
    Int16,
    Int32,
    Int64,
    UInt8,
    UInt16,
    UInt32,
    UInt64,
    String,
    Buffer,
    Protobuf,
}

/// The argument kind that the wire tag `tag` names, if any.
pub open spec fn arg_type_of(tag: nat) -> Option<RpcCallArgType> {
    if tag == 0 {
        Some(RpcCallArgType::Int8)
    } else if tag == 1 {
        Some(RpcCallArgType::Int16)
    } else if tag == 2 {
        Some(RpcCallArgType::Int32)
    } else if tag == 3 {
        Some(RpcCallArgType::Int64)
    } else if tag == 4 {
        Some(RpcCallArgType::UInt8)
    } else if tag == 5 {
        Some(RpcCallArgType::UInt16)
    } else if tag == 6 {
        Some(RpcCallArgType::UInt32)
    } else if tag == 7 {
        Some(RpcCallArgType::UInt64)
    } else if tag == 8 {
        Some(RpcCallArgType::String)
    } else if tag == 9 {
        Some(RpcCallArgType::Buffer)
    } else if tag == 10 {
        Some(RpcCallArgType::Protobuf)
    } else {
        None
    }
}

impl RpcCallArgType {
    /// The wire tag of this kind.
    pub open spec fn spec_tag(self) -> u32 {
        match self {
            RpcCallArgType::Int8 => 0,
            RpcCallArgType::Int16 => 1,
            RpcCallArgType::Int32 => 2,
            RpcCallArgType::Int64 => 3,
            RpcCallArgType::UInt8 => 4,
            RpcCallArgType::UInt16 => 5,
            RpcCallArgType::UInt32 => 6,
            RpcCallArgType::UInt64 => 7,
            RpcCallArgType::String => 8,
            RpcCallArgType::Buffer => 9,
            RpcCallArgType::Protobuf => 10,
        }
    }

    pub fn tag(self) -> (r: u32)
        ensures
            r == self.spec_tag(),
            arg_type_of(r as nat) == Some(self),
    {
        match self {
            RpcCallArgType::Int8 => 0,
            RpcCallArgType::Int16 => 1,
            RpcCallArgType::Int32 => 2,
            RpcCallArgType::Int64 => 3,
            RpcCallArgType::UInt8 => 4,
            RpcCallArgType::UInt16 => 5,
            RpcCallArgType::UInt32 => 6,
            RpcCallArgType::UInt64 => 7,
            RpcCallArgType::String => 8,
            RpcCallArgType::Buffer => 9,
            RpcCallArgType::Protobuf => 10,
        }
    }

    /// The kind that a wire tag names; `None` for a tag outside the enumeration.
    pub fn from_tag(tag: u32) -> (r: Option<RpcCallArgType>)
        ensures
            r == arg_type_of(tag as nat),
    {
        match tag {
            0 => Some(RpcCallArgType::Int8),
            1 => Some(RpcCallArgType::Int16),
            2 => Some(RpcCallArgType::Int32),
            3 => Some(RpcCallArgType::Int64),
            4 => Some(RpcCallArgType::UInt8),
            5 => Some(RpcCallArgType::UInt16),
            6 => Some(RpcCallArgType::UInt32),
            7 => Some(RpcCallArgType::UInt64),
            8 => Some(RpcCallArgType::String),
            9 => Some(RpcCallArgType::Buffer),
            10 => Some(RpcCallArgType::Protobuf),
            _ => None,
        }
    }
}

/// `pow256` at the widths that integers on the wire use.
pub proof fn lemma_pow256_values()
    ensures
        pow256(0) == 1,
        pow256(1) == 0x100,
        pow256(2) == 0x1_0000,
        pow256(3) == 0x100_0000,
        pow256(4) == 0x1_0000_0000,
        pow256(5) == 0x100_0000_0000,
        pow256(6) == 0x1_0000_0000_0000,
        pow256(7) == 0x100_0000_0000_0000,
        pow256(8) == 0x1_0000_0000_0000_0000,
{
    reveal_with_fuel(pow256, 9);
}

/// A number read from `n` bytes is below `256^n`.
pub proof fn lemma_le_nat_bound(b: Seq<u8>)
    ensures
        le_nat(b) < pow256(b.len()),
    decreases b.len(),
{
    if b.len() > 0 {
        lemma_le_nat_bound(b.drop_first());
    }
}

/// Reading back the `n` bytes written for `v < 256^n` gives `v`.
pub proof fn lemma_le_round_trip(v: nat, n: nat)
    requires
        v < pow256(n),
    ensures
        le_bytes(v, n).len() == n,
        le_nat(le_bytes(v, n)) == v,
    decreases n,
{
    if n > 0 {
        let p = pow256((n - 1) as nat);
        assert(v / 256 < p);
        lemma_le_round_trip(v / 256, (n - 1) as nat);
        assert(le_bytes(v, n).drop_first() =~= le_bytes(v / 256, (n - 1) as nat));
    }
}

/// Reading back the `n` bytes written most significant first for
/// `v < 256^n` gives `v`.
pub proof fn lemma_be_round_trip(v: nat, n: nat)
    requires
        v < pow256(n),
    ensures
        be_bytes(v, n).len() == n,
        be_nat(be_bytes(v, n)) == v,
    decreases n,
{
    if n > 0 {
        let p = pow256((n - 1) as nat);
        assert(v / 256 < p);
        lemma_be_round_trip(v / 256, (n - 1) as nat);
        assert(be_bytes(v, n).drop_last() =~= be_bytes(v / 256, (n - 1) as nat));
    }
}

/// `le_bytes` always has the requested length.
pub proof fn lemma_le_bytes_len(v: nat, n: nat)
    ensures
        le_bytes(v, n).len() == n,
    decreases n,
{
    if n > 0 {
        lemma_le_bytes_len(v / 256, (n - 1) as nat);
    }
}

/// Reads the `n`-byte little-endian number at `start` in `b`.
pub fn read_le(b: &[u8], start: usize, n: usize) -> (r: u64)
    requires
        n <= 8,
        start + n <= b@.len(),
    ensures
        r as nat == le_nat(b@.subrange(start as int, start + n)),
{
    proof {
        lemma_pow256_values();
    }
    let _len = b.len();
    let end = start + n;
    let mut v: u64 = 0;
    let mut i: usize = end;
    while i > start
        invariant
            start <= i <= end,
            end == start + n,
            n <= 8,
            end <= b@.len(),
            v as nat == le_nat(b@.subrange(i as int, end as int)),
            pow256(8) == 0x1_0000_0000_0000_0000,
        decreases i,
    {
        let ghost tail = b@.subrange(i as int, end as int);
        let ghost s = b@.subrange(i - 1, end as int);
        proof {
            assert(s.drop_first() =~= tail);
            lemma_le_nat_bound(tail);
            lemma_pow256_mono(tail.len(), 7);
        }
        v = (b[i - 1] as u64) + 256 * v;
        i = i - 1;
    }
    v
}

/// `pow256` grows with its exponent.
pub proof fn lemma_pow256_mono(a: nat, b: nat)
    requires
        a <= b,
    ensures
        pow256(a) <= pow256(b),
    decreases b,
{
    if a < b {
        lemma_pow256_mono(a, (b - 1) as nat);
    }
}

/// Reads the big-endian 32-bit number at `start` in `b`.
pub fn read_be32(b: &[u8], start: usize) -> (r: u32)
    requires
        start + 4 <= b@.len(),
    ensures
        r as nat == be_nat(b@.subrange(start as int, start + 4)),
{
    let s = Ghost(b@.subrange(start as int, start + 4));
    proof {
        reveal_with_fuel(be_nat, 5);
        assert(s@.drop_last() =~= b@.subrange(start as int, start + 3));
        assert(s@.drop_last().drop_last() =~= b@.subrange(start as int, start + 2));
        assert(s@.drop_last().drop_last().drop_last() =~= b@.subrange(start as int, start + 1));
    }
    (b[start] as u32) * 0x100_0000 + (b[start + 1] as u32) * 0x1_0000 + (b[start + 2] as u32)
        * 0x100 + (b[start + 3] as u32)
}

/// Appends the `n` low-order bytes of `v`, least significant first.
pub fn push_le(out: &mut Vec<u8>, v: u64, n: usize)
    ensures
        final(out)@ == old(out)@ + le_bytes(v as nat, n as nat),
{
    let mut x: u64 = v;
    let mut i: usize = 0;
    while i < n
        invariant
            i <= n,
            out@ + le_bytes(x as nat, (n - i) as nat) == old(out)@ + le_bytes(v as nat, n as nat),
        decreases n - i,
    {
        let ghost before = out@;
        let ghost rest = le_bytes(x as nat, (n - i) as nat);
        out.push((x % 256) as u8);
        proof {
            assert(rest == seq![(x % 256) as u8] + le_bytes((x / 256) as nat, (n - i - 1) as nat));
            assert(out@ + le_bytes((x / 256) as nat, (n - i - 1) as nat) =~= before + rest);
        }
        x = x / 256;
        i = i + 1;
    }
    proof {
        assert(out@ + le_bytes(x as nat, 0) =~= out@);
    }
}

/// Appends every byte of `b`.
pub fn push_bytes(out: &mut Vec<u8>, b: &[u8])
    ensures
        final(out)@ == old(out)@ + b@,
{
    let ghost before = out@;
    let mut i: usize = 0;
    while i < b.len()
        invariant
            i <= b@.len(),
            out@ == before + b@.subrange(0, i as int),
            before == old(out)@,
        decreases b@.len() - i,
    {
        out.push(b[i]);
        i = i + 1;
        proof {
            assert(out@ =~= before + b@.subrange(0, i as int));
        }
    }
    proof {
        assert(b@.subrange(0, b@.len() as int) =~= b@);
    }
}

/// Appends the four bytes of `v`, most significant first.
pub fn push_be32(out: &mut Vec<u8>, v: u32)
    ensures
        final(out)@ == old(out)@ + be_bytes(v as nat, 4),
{
    let ghost before = out@;
    out.push((v / 0x100_0000) as u8);
    out.push(((v / 0x1_0000) % 256) as u8);
    out.push(((v / 0x100) % 256) as u8);
    out.push((v % 256) as u8);
    proof {
        reveal_with_fuel(be_bytes, 5);
        let w = v as nat;
        assert(w / 256 / 256 / 256 == w / 0x100_0000);
        assert(w / 256 / 256 == w / 0x1_0000);
        assert(w / 256 / 256 / 256 % 256 == w / 0x100_0000);
        assert(out@ =~= before + be_bytes(w, 4));
    }
}

/// The bytes of a response frame.
pub open spec fn response_bytes(call_id: u32, result: RpcCallResult, data: Seq<u8>) -> Seq<u8> {
    be_bytes(RPC_RESPONSE_MAGIC as nat, 4) + le_bytes(call_id as nat, 4) + le_bytes(
        result.spec_code() as nat,
        8,
    ) + le_bytes(data.len(), 8) + data
}

/// Encodes a response frame that answers `call_id` with `result` and `data`.
pub fn encode_response(call_id: u32, result: RpcCallResult, data: &[u8]) -> (r: Vec<u8>)
    ensures
        r@ == response_bytes(call_id, result, data@),
{
    let mut msg: Vec<u8> = Vec::new();
    push_be32(&mut msg, RPC_RESPONSE_MAGIC);
    push_le(&mut msg, call_id as u64, 4);
    push_le(&mut msg, result.code(), 8);
    push_le(&mut msg, data.len() as u64, 8);
    push_bytes(&mut msg, data);
    msg
}

} // verus!
