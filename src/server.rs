//! The function table and the decisions a connection worker makes: from a
//! received message to a response, or to a call of a registered handler.
use vstd::prelude::*;
use vstd::slice::{slice_subrange, slice_to_vec};

use crate::context::RpcCallContext;
use crate::wire::{
    be_nat, encode_response, le_nat, lemma_le_nat_bound, lemma_pow256_values, read_be32,
    read_le, response_bytes, RpcCallArgType, RpcCallResult, REQUEST_HEADER_LEN,
    RPC_REQUEST_MAGIC,
};

verus! {

/// A registered function: its id, its handler and its declared argument kinds.
#[derive(Clone)]
pub struct RpcCallFuncInfo<F> {
    pub id: u32,
    pub func: F,
    pub argtypes: Vec<RpcCallArgType>,
}

/// The id and the declared kinds of each entry of a table.
pub open spec fn signatures<F>(fs: Seq<RpcCallFuncInfo<F>>) -> Seq<(u32, Seq<RpcCallArgType>)> {
    fs.map_values(|f: RpcCallFuncInfo<F>| (f.id, f.argtypes@))
}

/// The position of the entry registered last under `id`, if any.
pub open spec fn find_function(sigs: Seq<(u32, Seq<RpcCallArgType>)>, id: u32) -> Option<int>
    decreases sigs.len(),
{
    if sigs.len() == 0 {
        None
    } else if sigs.last().0 == id {
        Some(sigs.len() - 1)
    } else {
        find_function(sigs.drop_last(), id)
    }
}

/// What a worker does next, in terms of bytes.
pub enum Step {
    /// End the connection without sending anything.
    Close,
    /// Send this response frame and wait for the next request.
    Reply(Seq<u8>),
    /// Call the handler at `index` on the argument frames `data`.
    Invoke { call_id: u32, index: int, data: Seq<u8> },
}

/// The call id at its fixed offset in a request.
pub open spec fn request_call_id(msg: Seq<u8>) -> u32 {
    le_nat(msg.subrange(4, 8)) as u32
}

/// The function id at its fixed offset in a request.
pub open spec fn request_function_id(msg: Seq<u8>) -> u32 {
    le_nat(msg.subrange(8, 12)) as u32
}

/// The argument count at its fixed offset in a request.
pub open spec fn request_args_count(msg: Seq<u8>) -> nat {
    le_nat(msg.subrange(12, 16))
}

/// How a worker answers the message `msg` with the table `sigs`.
///
/// A message too short to hold a call id ends the connection. One that holds
/// a call id but no whole header, or opens with another sentinel, is
/// answered `InvalidArg`; an unknown function id `ServerInvalidFunction`;
/// fewer arguments than the function declares `InvalidArg`. Otherwise the
/// function registered under the id is called on the bytes after the header.
pub open spec fn request_step(sigs: Seq<(u32, Seq<RpcCallArgType>)>, msg: Seq<u8>) -> Step {
    if msg.len() < 8 {
        Step::Close
    } else {
        let call_id = request_call_id(msg);
        let invalid = Step::Reply(response_bytes(call_id, RpcCallResult::InvalidArg, Seq::empty()));
        if msg.len() < 16 {
            invalid
        } else if be_nat(msg.subrange(0, 4)) != RPC_REQUEST_MAGIC as nat {
            invalid
        } else {
            match find_function(sigs, request_function_id(msg)) {
                None => Step::Reply(
                    response_bytes(call_id, RpcCallResult::ServerInvalidFunction, Seq::empty()),
                ),
                Some(i) => if sigs[i].1.len() > request_args_count(msg) {
                    invalid
                } else {
                    Step::Invoke { call_id, index: i, data: msg.subrange(16, msg.len() as int) }
                },
            }
        }
    }
}

/// What the transport reported on a connection.
pub enum ConnEvent {
    /// One complete message arrived.
    Message(Vec<u8>),
    /// The peer closed the connection.
    EndOfStream,
    /// Receiving failed.
    Failed,
}

/// What a worker is to do next.
pub enum ConnAction {
    /// Send this response frame, then wait for the next request.
    Send(Vec<u8>),
    /// Call the handler at `index` with `ctx`, then answer with
    /// `complete_call`.
    Invoke { call_id: u32, index: usize, ctx: RpcCallContext },
    /// End the connection; nothing is sent.
    Close,
}

impl ConnAction {
    /// The step this action carries out.
    pub open spec fn step(&self) -> Step {
        match self {
            ConnAction::Send(m) => Step::Reply(m@),
            ConnAction::Invoke { call_id, index, ctx } => Step::Invoke {
                call_id: *call_id,
                index: *index as int,
                data: ctx.spec_data(),
            },
            ConnAction::Close => Step::Close,
        }
    }
}

/// Properties of `find_function`: it names an entry with that id, and no
/// later entry has it; it finds none only where no entry has the id.
pub proof fn lemma_find_function(sigs: Seq<(u32, Seq<RpcCallArgType>)>, id: u32)
    ensures
        find_function(sigs, id) is None <==> forall|j: int| 0 <= j < sigs.len() ==> sigs[j].0 != id,
        find_function(sigs, id) is Some ==> {
            let i = find_function(sigs, id)->0;
            &&& 0 <= i < sigs.len()
            &&& sigs[i].0 == id
            &&& forall|j: int| i < j < sigs.len() ==> sigs[j].0 != id
        },
    decreases sigs.len(),
{
    if sigs.len() > 0 {
        let init = sigs.drop_last();
        lemma_find_function(init, id);
        assert forall|j: int| 0 <= j < init.len() implies init[j] == sigs[j] by {}
    }
}

/// The position of the entry registered last under `id`.
fn lookup<F>(functions: &[RpcCallFuncInfo<F>], id: u32) -> (r: Option<usize>)
    ensures
        r is Some <==> find_function(signatures(functions@), id) is Some,
        r is Some ==> r->0 as int == find_function(signatures(functions@), id)->0,
{
    let ghost sigs = signatures(functions@);
    let mut i: usize = functions.len();
    proof {
        assert(sigs.take(i as int) =~= sigs);
    }
    while i > 0
        invariant
            i <= functions@.len(),
            sigs == signatures(functions@),
            find_function(sigs, id) == find_function(sigs.take(i as int), id),
        decreases i,
    {
        let ghost prefix = sigs.take(i as int);
        proof {
            assert(prefix.last() == sigs[i - 1]);
            assert(prefix.drop_last() =~= sigs.take(i - 1));
        }
        if functions[i - 1].id == id {
            return Some(i - 1);
        }
        i = i - 1;
    }
    None
}

/// Decides what a worker does with one transport event: a message is
/// checked against the table and either answered at once or handed to the
/// matching handler with a fresh context; a closed or failed connection ends
/// the worker without a response.
pub fn handle_call<F>(functions: &[RpcCallFuncInfo<F>], event: ConnEvent) -> (r: ConnAction)
    ensures
        match event {
            ConnEvent::Message(msg) => r.step() == request_step(signatures(functions@), msg@),
            _ => r is Close,
        },
        r is Invoke ==> {
            &&& (r->index as int) < functions@.len()
            &&& r->ctx.spec_argtypes() == functions@[r->index as int].argtypes@
            &&& r->ctx.spec_reply() == Seq::<u8>::empty()
        },
{
    let msg = match event {
        ConnEvent::Message(msg) => msg,
        _ => {
            return ConnAction::Close;
        },
    };
    let bytes = msg.as_slice();
    let len = bytes.len();
    if len < 8 {
        return ConnAction::Close;
    }
    proof {
        lemma_pow256_values();
        lemma_le_nat_bound(msg@.subrange(4, 8));
    }
    let call_id = read_le(bytes, 4, 4) as u32;
    if len < REQUEST_HEADER_LEN {
        return ConnAction::Send(encode_response(call_id, RpcCallResult::InvalidArg, &[]));
    }
    let magic = read_be32(bytes, 0);
    if magic != RPC_REQUEST_MAGIC {
        return ConnAction::Send(encode_response(call_id, RpcCallResult::InvalidArg, &[]));
    }
    proof {
        lemma_le_nat_bound(msg@.subrange(8, 12));
        lemma_le_nat_bound(msg@.subrange(12, 16));
    }
    let function_id = read_le(bytes, 8, 4) as u32;
    let args_count = read_le(bytes, 12, 4);
    let index = match lookup(functions, function_id) {
        Some(i) => i,
        None => {
            return ConnAction::Send(
                encode_response(call_id, RpcCallResult::ServerInvalidFunction, &[]),
            );
        },
    };
    proof {
        lemma_find_function(signatures(functions@), function_id);
    }
    let argtypes = slice_to_vec(functions[index].argtypes.as_slice());
    proof {
        assert(signatures(functions@)[index as int].1 == functions@[index as int].argtypes@);
    }
    if argtypes.len() as u64 > args_count {
        return ConnAction::Send(encode_response(call_id, RpcCallResult::InvalidArg, &[]));
    }
    let data = slice_to_vec(slice_subrange(bytes, REQUEST_HEADER_LEN, len));
    let ctx = RpcCallContext::new(argtypes, data);
    ConnAction::Invoke { call_id, index, ctx }
}

/// Arity gate: a request for a known function that declares more arguments
/// than the request's count is answered `InvalidArg`, whatever bytes follow
/// the header.
pub proof fn lemma_arity_gate(sigs: Seq<(u32, Seq<RpcCallArgType>)>, msg: Seq<u8>)
    requires
        msg.len() >= 16,
        be_nat(msg.subrange(0, 4)) == RPC_REQUEST_MAGIC as nat,
        find_function(sigs, request_function_id(msg)) is Some,
        sigs[find_function(sigs, request_function_id(msg))->0].1.len() > request_args_count(msg),
    ensures
        request_step(sigs, msg) == Step::Reply(
            response_bytes(request_call_id(msg), RpcCallResult::InvalidArg, Seq::empty()),
        ),
{
}

/// Unknown function: a request whose function id no entry of the table has
/// is answered `ServerInvalidFunction`, and the answer does not depend on
/// any byte after the header.
pub proof fn lemma_unknown_function(
    sigs: Seq<(u32, Seq<RpcCallArgType>)>,
    msg: Seq<u8>,
    other: Seq<u8>,
)
    requires
        msg.len() >= 16,
        be_nat(msg.subrange(0, 4)) == RPC_REQUEST_MAGIC as nat,
        forall|j: int| 0 <= j < sigs.len() ==> sigs[j].0 != request_function_id(msg),
        other.len() >= 16,
        other.subrange(0, 16) == msg.subrange(0, 16),
    ensures
        request_step(sigs, msg) == Step::Reply(
            response_bytes(request_call_id(msg), RpcCallResult::ServerInvalidFunction, Seq::empty()),
        ),
        request_step(sigs, other) == request_step(sigs, msg),
{
    lemma_find_function(sigs, request_function_id(msg));
    assert(other.subrange(0, 4) =~= msg.subrange(0, 16).subrange(0, 4));
    assert(msg.subrange(0, 4) =~= msg.subrange(0, 16).subrange(0, 4));
    assert(other.subrange(4, 8) =~= msg.subrange(0, 16).subrange(4, 8));
    assert(msg.subrange(4, 8) =~= msg.subrange(0, 16).subrange(4, 8));
    assert(other.subrange(8, 12) =~= msg.subrange(0, 16).subrange(8, 12));
    assert(msg.subrange(8, 12) =~= msg.subrange(0, 16).subrange(8, 12));
}

/// Bad envelope sentinel: a message that holds a call id but does not open
/// with the request sentinel is answered `InvalidArg` under the call id
/// found at its fixed offset, whatever else it holds.
pub proof fn lemma_bad_magic(sigs: Seq<(u32, Seq<RpcCallArgType>)>, msg: Seq<u8>)
    requires
        msg.len() >= 8,
        be_nat(msg.subrange(0, 4)) != RPC_REQUEST_MAGIC as nat,
    ensures
        request_step(sigs, msg) == Step::Reply(
            response_bytes(request_call_id(msg), RpcCallResult::InvalidArg, Seq::empty()),
        ),
{
}

/// The response to a call whose handler ran: `Success` with the reply the
/// handler wrote, or `ServerInternalError` with no data where it failed.
pub fn complete_call(call_id: u32, handler_ok: bool, ctx: &RpcCallContext) -> (r: Vec<u8>)
    ensures
        r@ == if handler_ok {
            response_bytes(call_id, RpcCallResult::Success, ctx.spec_reply())
        } else {
            response_bytes(call_id, RpcCallResult::ServerInternalError, Seq::empty())
        },
{
    if handler_ok {
        encode_response(call_id, RpcCallResult::Success, ctx.reply())
    } else {
        encode_response(call_id, RpcCallResult::ServerInternalError, &[])
    }
}

/// A copy of a table: the same ids and kinds, each handler cloned.
fn copy_table<F: Clone>(functions: &[RpcCallFuncInfo<F>]) -> (r: Vec<RpcCallFuncInfo<F>>)
    ensures
        signatures(r@) == signatures(functions@),
        r@.len() == functions@.len(),
        forall|i: int| 0 <= i < r@.len() ==> cloned(functions@[i].func, #[trigger] r@[i].func),
{
    let mut out: Vec<RpcCallFuncInfo<F>> = Vec::new();
    let mut i: usize = 0;
    while i < functions.len()
        invariant
            i <= functions@.len(),
            out@.len() == i,
            signatures(out@) =~= signatures(functions@.take(i as int)),
            forall|j: int| 0 <= j < i ==> cloned(functions@[j].func, #[trigger] out@[j].func),
        decreases functions@.len() - i,
    {
        let f = &functions[i];
        let ghost before = out@;
        let func = f.func.clone();
        proof {
            assert(cloned(f.func, func));
        }
        out.push(RpcCallFuncInfo { id: f.id, func, argtypes: slice_to_vec(f.argtypes.as_slice()) });
        i = i + 1;
        proof {
            let done = functions@.take(i as int);
            assert forall|j: int| 0 <= j < i implies #[trigger] signatures(out@)[j] == signatures(
                done,
            )[j] by {
                if j < i - 1 {
                    assert(out@[j] == before[j]);
                    assert(signatures(before)[j] == signatures(functions@.take(i - 1))[j]);
                }
            }
            assert(signatures(out@) =~= signatures(done));
            assert forall|j: int| 0 <= j < i implies cloned(
                functions@[j].func,
                #[trigger] out@[j].func,
            ) by {
                if j < i - 1 {
                    assert(out@[j] == before[j]);
                }
            }
        }
    }
    proof {
        assert(functions@.take(i as int) =~= functions@);
    }
    out
}

/// A server: the transport handle it accepts connections on, and the table
/// of functions it serves.
pub struct RpcServer<F, I> {
    ipc: I,
    functions: Vec<RpcCallFuncInfo<F>>,
}

impl<F: Clone, I> RpcServer<F, I> {
    /// The ids and kinds of the table served.
    pub closed spec fn table(&self) -> Seq<(u32, Seq<RpcCallArgType>)> {
        signatures(self.functions@)
    }

    /// The handler of each entry of the table served.
    pub closed spec fn handlers(&self) -> Seq<F> {
        self.functions@.map_values(|f: RpcCallFuncInfo<F>| f.func)
    }

    /// The transport handle.
    pub closed spec fn spec_ipc(&self) -> I {
        self.ipc
    }

    /// A server on the transport handle `ipc` that serves `functions`.
    pub fn create(ipc: I, functions: &[RpcCallFuncInfo<F>]) -> (r: Self)
        ensures
            r.table() == signatures(functions@),
            r.handlers().len() == functions@.len(),
            forall|i: int|
                0 <= i < functions@.len() ==> cloned(functions@[i].func, #[trigger] r.handlers()[i]),
            r.spec_ipc() == ipc,
    {
        RpcServer { ipc, functions: copy_table(functions) }
    }

    /// Replaces the whole table.
    pub fn set_functions(&mut self, functions: &[RpcCallFuncInfo<F>])
        ensures
            final(self).table() == signatures(functions@),
            final(self).handlers().len() == functions@.len(),
            forall|i: int|
                0 <= i < functions@.len() ==> cloned(
                    functions@[i].func,
                    #[trigger] final(self).handlers()[i],
                ),
            final(self).spec_ipc() == old(self).spec_ipc(),
    {
        self.functions = copy_table(functions);
    }

    /// The table served.
    pub fn functions(&self) -> (r: &[RpcCallFuncInfo<F>])
        ensures
            signatures(r@) == self.table(),
            r@.len() == self.handlers().len(),
            forall|i: int| 0 <= i < r@.len() ==> #[trigger] r@[i].func == self.handlers()[i],
    {
        self.functions.as_slice()
    }

    /// A copy of the table for one connection.
    pub fn snapshot(&self) -> (r: Vec<RpcCallFuncInfo<F>>)
        ensures
            signatures(r@) == self.table(),
            r@.len() == self.handlers().len(),
            forall|i: int| 0 <= i < r@.len() ==> cloned(self.handlers()[i], #[trigger] r@[i].func),
    {
        copy_table(self.functions.as_slice())
    }

    /// The transport handle.
    pub fn ipc(&self) -> (r: &I)
        ensures
            *r == self.spec_ipc(),
    {
        &self.ipc
    }
}

} // verus!
