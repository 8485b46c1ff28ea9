use librpc::context::{ArgError, RpcCallContext};
use librpc::server::{complete_call, handle_call, ConnAction, ConnEvent, RpcCallFuncInfo, RpcServer};
use librpc::value::{encode_arg, encode_args, encode_request, RpcArgValue};
use librpc::wire::{
    encode_response, RpcCallArgType, RpcCallResult, RPC_ARG_MAGIC, RPC_REQUEST_MAGIC,
    RPC_RESPONSE_MAGIC,
};

type Handler = fn(&mut RpcCallContext) -> Result<(), ArgError>;

fn reply_u32_low_byte(ctx: &mut RpcCallContext) -> Result<(), ArgError> {
    let v = ctx.get_arg_u32(0)?;
    ctx.write_reply(&[v as u8]);
    Ok(())
}

fn reply_nothing(_ctx: &mut RpcCallContext) -> Result<(), ArgError> {
    Ok(())
}

fn entry(id: u32, argtypes: Vec<RpcCallArgType>) -> RpcCallFuncInfo<Handler> {
    RpcCallFuncInfo { id, func: reply_u32_low_byte as Handler, argtypes }
}

fn arg_frame(argtype: u32, data: &[u8]) -> Vec<u8> {
    let mut v = Vec::new();
    v.extend_from_slice(&RPC_ARG_MAGIC.to_be_bytes());
    v.extend_from_slice(&argtype.to_le_bytes());
    v.extend_from_slice(&(data.len() as u32).to_le_bytes());
    v.extend_from_slice(data);
    v
}

fn request(magic: u32, call_id: u32, function_id: u32, args_count: u32, args: &[u8]) -> Vec<u8> {
    let mut v = Vec::new();
    v.extend_from_slice(&magic.to_be_bytes());
    v.extend_from_slice(&call_id.to_le_bytes());
    v.extend_from_slice(&function_id.to_le_bytes());
    v.extend_from_slice(&args_count.to_le_bytes());
    v.extend_from_slice(args);
    v
}

fn response(call_id: u32, code: u64, data: &[u8]) -> Vec<u8> {
    let mut v = Vec::new();
    v.extend_from_slice(&RPC_RESPONSE_MAGIC.to_be_bytes());
    v.extend_from_slice(&call_id.to_le_bytes());
    v.extend_from_slice(&code.to_le_bytes());
    v.extend_from_slice(&(data.len() as u64).to_le_bytes());
    v.extend_from_slice(data);
    v
}

fn expect_send(action: ConnAction) -> Vec<u8> {
    match action {
        ConnAction::Send(bytes) => bytes,
        ConnAction::Invoke { .. } => panic!("expected a response, got a call"),
        ConnAction::Close => panic!("expected a response, got a close"),
    }
}

fn expect_invoke(action: ConnAction) -> (u32, usize, RpcCallContext) {
    match action {
        ConnAction::Invoke { call_id, index, ctx } => (call_id, index, ctx),
        ConnAction::Send(_) => panic!("expected a call, got a response"),
        ConnAction::Close => panic!("expected a call, got a close"),
    }
}

/// Runs one request through the table the way a worker does.
fn serve(table: &[RpcCallFuncInfo<Handler>], msg: Vec<u8>) -> Option<Vec<u8>> {
    match handle_call(table, ConnEvent::Message(msg)) {
        ConnAction::Send(bytes) => Some(bytes),
        ConnAction::Invoke { call_id, index, mut ctx } => {
            let ok = (table[index].func)(&mut ctx).is_ok();
            Some(complete_call(call_id, ok, &ctx))
        }
        ConnAction::Close => None,
    }
}

#[test]
fn concrete_scenario_u32_argument() {
    let table = vec![entry(7, vec![RpcCallArgType::UInt32])];
    let args = arg_frame(RpcCallArgType::UInt32.tag(), &[0x2A, 0, 0, 0]);
    let msg = request(RPC_REQUEST_MAGIC, 1, 7, 1, &args);
    let (call_id, index, mut ctx) = expect_invoke(handle_call(&table, ConnEvent::Message(msg)));
    assert_eq!(call_id, 1);
    assert_eq!(index, 0);
    assert_eq!(ctx.get_arg_u32(0), Ok(42));
    (table[index].func)(&mut ctx).unwrap();
    assert_eq!(ctx.reply(), &[0x2A]);
    let out = complete_call(call_id, true, &ctx);
    assert_eq!(out, response(1, 0, &[0x2A]));
    let mut expected = vec![0x52, 0x50, 0x43, 0x3C, 1, 0, 0, 0];
    expected.extend_from_slice(&[0; 8]);
    expected.extend_from_slice(&[1, 0, 0, 0, 0, 0, 0, 0]);
    expected.push(0x2A);
    assert_eq!(out, expected);
}

#[test]
fn disconnect_ends_worker_without_response() {
    let table = vec![entry(7, vec![RpcCallArgType::UInt32])];
    assert!(matches!(handle_call(&table, ConnEvent::EndOfStream), ConnAction::Close));
}

#[test]
fn receive_failure_ends_worker() {
    let table = vec![entry(7, vec![RpcCallArgType::UInt32])];
    assert!(matches!(handle_call(&table, ConnEvent::Failed), ConnAction::Close));
}

#[test]
fn arity_gate_rejects_missing_arguments() {
    let table = vec![entry(7, vec![RpcCallArgType::UInt32])];
    let msg = request(RPC_REQUEST_MAGIC, 5, 7, 0, &[]);
    assert_eq!(expect_send(handle_call(&table, ConnEvent::Message(msg))), response(5, 1, &[]));
}

#[test]
fn arity_gate_ignores_arguments_present_in_buffer() {
    let table = vec![entry(7, vec![RpcCallArgType::UInt32, RpcCallArgType::UInt32])];
    let mut args = arg_frame(6, &[1, 0, 0, 0]);
    args.extend(arg_frame(6, &[2, 0, 0, 0]));
    let msg = request(RPC_REQUEST_MAGIC, 6, 7, 1, &args);
    assert_eq!(expect_send(handle_call(&table, ConnEvent::Message(msg))), response(6, 1, &[]));
}

#[test]
fn extra_arguments_are_accepted() {
    let table = vec![entry(7, vec![RpcCallArgType::UInt32])];
    let mut args = arg_frame(6, &[9, 0, 0, 0]);
    args.extend(arg_frame(6, &[2, 0, 0, 0]));
    let msg = request(RPC_REQUEST_MAGIC, 8, 7, 2, &args);
    assert_eq!(serve(&table, msg), Some(response(8, 0, &[9])));
}

#[test]
fn unknown_function_is_reported() {
    let table = vec![entry(7, vec![RpcCallArgType::UInt32])];
    let msg = request(RPC_REQUEST_MAGIC, 3, 9, 1, &[0xde, 0xad]);
    assert_eq!(expect_send(handle_call(&table, ConnEvent::Message(msg))), response(3, 2, &[]));
}

#[test]
fn unknown_function_on_empty_table() {
    let table: Vec<RpcCallFuncInfo<Handler>> = Vec::new();
    let msg = request(RPC_REQUEST_MAGIC, 4, 0, 0, &[]);
    assert_eq!(expect_send(handle_call(&table, ConnEvent::Message(msg))), response(4, 2, &[]));
}

#[test]
fn bad_request_magic_echoes_call_id() {
    let table = vec![entry(7, vec![RpcCallArgType::UInt32])];
    let msg = request(0xdead_beef, 0x0102_0304, 7, 1, &[0xff, 0xff, 0xff]);
    assert_eq!(
        expect_send(handle_call(&table, ConnEvent::Message(msg))),
        response(0x0102_0304, 1, &[])
    );
}

#[test]
fn bad_request_magic_with_short_header() {
    let table = vec![entry(7, vec![RpcCallArgType::UInt32])];
    let msg = vec![0, 0, 0, 0, 0x11, 0, 0, 0, 7];
    assert_eq!(expect_send(handle_call(&table, ConnEvent::Message(msg))), response(0x11, 1, &[]));
}

#[test]
fn message_without_call_id_closes() {
    let table = vec![entry(7, vec![RpcCallArgType::UInt32])];
    let msg = vec![0x52, 0x50, 0x43, 0x3E, 1, 0, 0];
    assert!(matches!(handle_call(&table, ConnEvent::Message(msg)), ConnAction::Close));
}

#[test]
fn type_mismatch_surfaces_as_internal_error() {
    let table = vec![entry(7, vec![RpcCallArgType::UInt32])];
    let args = arg_frame(RpcCallArgType::Int32.tag(), &[0x2A, 0, 0, 0]);
    let msg = request(RPC_REQUEST_MAGIC, 2, 7, 1, &args);
    let (call_id, index, mut ctx) = expect_invoke(handle_call(&table, ConnEvent::Message(msg)));
    assert_eq!(ctx.get_arg_u32(0), Err(ArgError::TypeMismatch));
    let ok = (table[index].func)(&mut ctx).is_ok();
    assert!(!ok);
    assert_eq!(complete_call(call_id, ok, &ctx), response(2, 3, &[]));
}

#[test]
fn handler_with_empty_reply() {
    let table = vec![RpcCallFuncInfo { id: 1, func: reply_nothing as Handler, argtypes: vec![] }];
    let msg = request(RPC_REQUEST_MAGIC, 10, 1, 0, &[]);
    assert_eq!(serve(&table, msg), Some(response(10, 0, &[])));
}

#[test]
fn duplicate_id_last_registration_wins() {
    let table = vec![
        RpcCallFuncInfo { id: 4, func: reply_nothing as Handler, argtypes: vec![] },
        entry(4, vec![RpcCallArgType::UInt32]),
    ];
    let msg = request(RPC_REQUEST_MAGIC, 11, 4, 0, &[]);
    assert_eq!(expect_send(handle_call(&table, ConnEvent::Message(msg))), response(11, 1, &[]));
    let args = arg_frame(6, &[5, 0, 0, 0]);
    let msg = request(RPC_REQUEST_MAGIC, 12, 4, 1, &args);
    let (_, index, _) = expect_invoke(handle_call(&table, ConnEvent::Message(msg)));
    assert_eq!(index, 1);
}

#[test]
fn round_trip_all_kinds() {
    let values = vec![
        RpcArgValue::Int8(-5),
        RpcArgValue::Int16(-300),
        RpcArgValue::Int32(i32::MIN),
        RpcArgValue::Int64(-1),
        RpcArgValue::UInt8(200),
        RpcArgValue::UInt16(65535),
        RpcArgValue::UInt32(0xdead_beef),
        RpcArgValue::UInt64(u64::MAX),
        RpcArgValue::String(String::new()),
        RpcArgValue::String("héllo wörld".to_string()),
        RpcArgValue::Buffer(Vec::new()),
        RpcArgValue::Buffer(vec![1, 2, 3, 0, 255]),
        RpcArgValue::Int64(i64::MIN),
        RpcArgValue::Int32(123_456),
    ];
    let kinds: Vec<RpcCallArgType> = values.iter().map(|v| v.kind()).collect();
    let ctx = RpcCallContext::new(kinds, encode_args(&values));
    assert_eq!(ctx.get_arg_i8(0), Ok(-5));
    assert_eq!(ctx.get_arg_i16(1), Ok(-300));
    assert_eq!(ctx.get_arg_i32(2), Ok(i32::MIN));
    assert_eq!(ctx.get_arg_i64(3), Ok(-1));
    assert_eq!(ctx.get_arg_u8(4), Ok(200));
    assert_eq!(ctx.get_arg_u16(5), Ok(65535));
    assert_eq!(ctx.get_arg_u32(6), Ok(0xdead_beef));
    assert_eq!(ctx.get_arg_u64(7), Ok(u64::MAX));
    assert_eq!(ctx.get_arg_string(8), Ok(String::new()));
    assert_eq!(ctx.get_arg_string(9), Ok("héllo wörld".to_string()));
    assert_eq!(ctx.get_arg_buffer(10), Ok(vec![]));
    assert_eq!(ctx.get_arg_buffer(11), Ok(vec![1, 2, 3, 0, 255]));
    assert_eq!(ctx.get_arg_i64(12), Ok(i64::MIN));
    assert_eq!(ctx.get_arg_i32(13), Ok(123_456));
}

#[test]
fn index_independence_any_order() {
    let values = vec![
        RpcArgValue::UInt16(7),
        RpcArgValue::String("abc".to_string()),
        RpcArgValue::Int32(-9),
    ];
    let kinds: Vec<RpcCallArgType> = values.iter().map(|v| v.kind()).collect();
    let ctx = RpcCallContext::new(kinds, encode_args(&values));
    assert_eq!(ctx.get_arg_i32(2), Ok(-9));
    assert_eq!(ctx.get_arg_i32(2), Ok(-9));
    assert_eq!(ctx.get_arg_string(1), Ok("abc".to_string()));
    assert_eq!(ctx.get_arg_u16(0), Ok(7));
    assert_eq!(ctx.get_arg_i32(2), Ok(-9));
    assert_eq!(ctx.get_arg_u16(0), Ok(7));
}

#[test]
fn encode_arg_exact_bytes() {
    assert_eq!(
        encode_arg(&RpcArgValue::UInt32(42)),
        vec![0x52, 0x50, 0x43, 0x41, 6, 0, 0, 0, 4, 0, 0, 0, 42, 0, 0, 0]
    );
    assert_eq!(
        encode_arg(&RpcArgValue::Int16(-2)),
        vec![0x52, 0x50, 0x43, 0x41, 1, 0, 0, 0, 2, 0, 0, 0, 0xfe, 0xff]
    );
    assert_eq!(
        encode_arg(&RpcArgValue::String("hi".to_string())),
        vec![0x52, 0x50, 0x43, 0x41, 8, 0, 0, 0, 2, 0, 0, 0, b'h', b'i']
    );
}

#[test]
fn encode_request_matches_layout() {
    let values = vec![RpcArgValue::UInt32(42)];
    let args = arg_frame(6, &[42, 0, 0, 0]);
    assert_eq!(encode_request(1, 7, &values), request(RPC_REQUEST_MAGIC, 1, 7, 1, &args));
}

#[test]
fn encode_response_matches_layout() {
    assert_eq!(
        encode_response(0x0a0b_0c0d, RpcCallResult::ServerInvalidFunction, &[9, 8]),
        vec![
            0x52, 0x50, 0x43, 0x3C, 0x0d, 0x0c, 0x0b, 0x0a, 2, 0, 0, 0, 0, 0, 0, 0, 2, 0, 0, 0, 0,
            0, 0, 0, 9, 8
        ]
    );
}

#[test]
fn result_codes_are_stable() {
    assert_eq!(RpcCallResult::Success.code(), 0);
    assert_eq!(RpcCallResult::InvalidArg.code(), 1);
    assert_eq!(RpcCallResult::ServerInvalidFunction.code(), 2);
    assert_eq!(RpcCallResult::ServerInternalError.code(), 3);
}

#[test]
fn argtype_tags_round_trip() {
    for tag in 0..11u32 {
        let t = RpcCallArgType::from_tag(tag).unwrap();
        assert_eq!(t.tag(), tag);
    }
    assert_eq!(RpcCallArgType::from_tag(11), None);
    assert_eq!(RpcCallArgType::from_tag(u32::MAX), None);
}

#[test]
fn truncated_payload_is_rejected() {
    let mut data = arg_frame(6, &[1, 2, 3, 4]);
    data.truncate(14);
    let ctx = RpcCallContext::new(vec![RpcCallArgType::UInt32], data);
    assert_eq!(ctx.get_narg(0), Err(ArgError::Truncated));
}

#[test]
fn truncated_header_is_rejected() {
    let ctx = RpcCallContext::new(vec![RpcCallArgType::UInt32], vec![0x52, 0x50, 0x43]);
    assert_eq!(ctx.get_arg_u32(0), Err(ArgError::Truncated));
}

#[test]
fn bad_magic_in_skipped_frame() {
    let mut data = arg_frame(6, &[1, 0, 0, 0]);
    data[0] = 0;
    data.extend(arg_frame(6, &[2, 0, 0, 0]));
    let ctx = RpcCallContext::new(vec![RpcCallArgType::UInt32, RpcCallArgType::UInt32], data);
    assert_eq!(ctx.get_arg_u32(1), Err(ArgError::BadMagic));
    assert_eq!(ctx.get_arg_u32(0), Err(ArgError::BadMagic));
}

#[test]
fn skipped_frame_type_is_not_checked() {
    let mut data = arg_frame(8, b"xy");
    data.extend(arg_frame(6, &[2, 0, 0, 0]));
    let ctx = RpcCallContext::new(vec![RpcCallArgType::UInt32, RpcCallArgType::UInt32], data);
    assert_eq!(ctx.get_arg_u32(1), Ok(2));
}

#[test]
fn unknown_argtype_tag_is_rejected() {
    let ctx = RpcCallContext::new(vec![RpcCallArgType::UInt32], arg_frame(99, &[1, 0, 0, 0]));
    assert_eq!(ctx.get_arg_u32(0), Err(ArgError::UnknownType));
}

#[test]
fn undeclared_index_is_rejected() {
    let ctx = RpcCallContext::new(vec![RpcCallArgType::UInt32], arg_frame(6, &[1, 0, 0, 0]));
    assert_eq!(ctx.get_arg_u32(1), Err(ArgError::Undeclared));
}

#[test]
fn invalid_utf8_is_rejected() {
    let ctx = RpcCallContext::new(vec![RpcCallArgType::String], arg_frame(8, &[0xc3, 0x28]));
    assert_eq!(ctx.get_arg_string(0), Err(ArgError::InvalidUtf8));
    assert_eq!(ctx.get_narg(0), Ok(vec![0xc3, 0x28]));
}

#[test]
fn short_integer_payload_is_rejected() {
    let ctx = RpcCallContext::new(vec![RpcCallArgType::UInt32], arg_frame(6, &[1, 2]));
    assert_eq!(ctx.get_arg_u32(0), Err(ArgError::Truncated));
    assert_eq!(ctx.get_arg_u16(0), Ok(0x0201));
}

#[test]
fn long_integer_payload_uses_leading_bytes() {
    let ctx = RpcCallContext::new(vec![RpcCallArgType::UInt8], arg_frame(4, &[0xff, 1, 2, 3]));
    assert_eq!(ctx.get_arg_u8(0), Ok(255));
    assert_eq!(ctx.get_arg_i8(0), Ok(-1));
    assert_eq!(ctx.get_arg_u16(0), Ok(0x01ff));
}

#[test]
fn write_reply_appends() {
    let mut ctx = RpcCallContext::new(vec![], vec![]);
    assert!(ctx.reply().is_empty());
    ctx.write_reply(&[1, 2]);
    ctx.write_reply(&[]);
    ctx.write_reply(&[3]);
    assert_eq!(ctx.reply(), &[1, 2, 3]);
}

#[test]
fn server_table_is_replaced_wholesale() {
    let mut server: RpcServer<Handler, u8> =
        RpcServer::create(5, &[entry(1, vec![]), entry(2, vec![RpcCallArgType::UInt32])]);
    assert_eq!(*server.ipc(), 5);
    assert_eq!(server.functions().len(), 2);
    server.set_functions(&[entry(3, vec![RpcCallArgType::String])]);
    let snap = server.snapshot();
    assert_eq!(snap.len(), 1);
    assert_eq!(snap[0].id, 3);
    assert_eq!(snap[0].argtypes, vec![RpcCallArgType::String]);
    assert_eq!(*server.ipc(), 5);
    let msg = request(RPC_REQUEST_MAGIC, 1, 1, 0, &[]);
    assert_eq!(expect_send(handle_call(&snap, ConnEvent::Message(msg))), response(1, 2, &[]));
}

#[test]
fn table_copies_keep_each_handler() {
    let functions = [
        RpcCallFuncInfo { id: 1, func: reply_nothing as Handler, argtypes: vec![] },
        entry(7, vec![RpcCallArgType::UInt32]),
    ];
    let mut server: RpcServer<Handler, ()> = RpcServer::create((), &functions);
    let args = arg_frame(6, &[9, 0, 0, 0]);
    for table in [server.snapshot(), server.functions().to_vec()] {
        assert_eq!(serve(&table, request(RPC_REQUEST_MAGIC, 1, 7, 1, &args)), Some(response(1, 0, &[9])));
        assert_eq!(serve(&table, request(RPC_REQUEST_MAGIC, 2, 1, 0, &[])), Some(response(2, 0, &[])));
    }
    server.set_functions(&[entry(1, vec![RpcCallArgType::UInt32])]);
    let table = server.snapshot();
    assert_eq!(serve(&table, request(RPC_REQUEST_MAGIC, 3, 1, 1, &args)), Some(response(3, 0, &[9])));
}

#[test]
fn hand_built_frames_round_trip() {
    let pb = [0x08, 0x96, 0x01];
    let mut data = arg_frame(RpcCallArgType::Protobuf.tag(), &pb);
    data.extend(arg_frame(RpcCallArgType::Buffer.tag(), &[]));
    data.extend(arg_frame(RpcCallArgType::Int16.tag(), &(-2i16).to_le_bytes()));
    data.extend(arg_frame(RpcCallArgType::String.tag(), "".as_bytes()));
    data.extend(arg_frame(RpcCallArgType::UInt64.tag(), &0x0102_0304_0506_0708u64.to_le_bytes()));
    let ctx = RpcCallContext::new(
        vec![
            RpcCallArgType::Protobuf,
            RpcCallArgType::Buffer,
            RpcCallArgType::Int16,
            RpcCallArgType::String,
            RpcCallArgType::UInt64,
        ],
        data,
    );
    assert_eq!(ctx.get_narg(0), Ok(pb.to_vec()));
    assert_eq!(ctx.get_arg_buffer(1), Ok(vec![]));
    assert_eq!(ctx.get_arg_i16(2), Ok(-2));
    assert_eq!(ctx.get_arg_string(3), Ok(String::new()));
    assert_eq!(ctx.get_arg_u64(4), Ok(0x0102_0304_0506_0708));
}
