use callback_protocol::codec::{
    read_bytes, read_i32, read_option_u64, read_seq_u64, read_string, read_u32, read_u64, read_u8,
    write_bytes, write_i32, write_option_u64, write_seq_u64, write_string, write_u32, write_u64,
    write_u8, EncodingError,
};
use callback_protocol::interface::{ArgDecl, CallbackInterface, DeclarationError, MethodDecl};
use callback_protocol::metadata::{
    interface_metadata, interface_metadata_items, method_metadata, type_id_metadata, MetadataError,
};
use callback_protocol::outcome::{complete_call, lift_i32_return, CallError};
use callback_protocol::proxy::{CallRefused, Proxy, IDX_CALLBACK_FREE};
use callback_protocol::registry::{HandleRegistry, RegistryError};

fn method(name: &str, args: &[(&str, u8)], ret: u8) -> MethodDecl {
    MethodDecl {
        name: name.to_string(),
        takes_receiver: true,
        args: args
            .iter()
            .map(|(n, t)| ArgDecl { name: n.to_string(), type_code: *t })
            .collect(),
        return_type: ret,
    }
}

fn abc() -> CallbackInterface {
    CallbackInterface::new(
        "app".to_string(),
        "Worker".to_string(),
        vec![method("a", &[], 6), method("b", &[("x", 6)], 6), method("c", &[], 6)],
    )
    .unwrap()
}

#[test]
fn integers_are_big_endian() {
    let mut buf = Vec::new();
    write_u8(&mut buf, 0xab);
    write_u32(&mut buf, 0x01020304);
    write_i32(&mut buf, -2);
    write_u64(&mut buf, 0x0102030405060708);
    assert_eq!(
        buf,
        vec![0xab, 1, 2, 3, 4, 0xff, 0xff, 0xff, 0xfe, 1, 2, 3, 4, 5, 6, 7, 8]
    );
}

#[test]
fn scalars_round_trip() {
    let mut buf = Vec::new();
    write_u8(&mut buf, 7);
    write_u32(&mut buf, u32::MAX);
    write_i32(&mut buf, i32::MIN);
    write_u64(&mut buf, 0xdead_beef_0000_0001);
    let (a, p) = read_u8(&buf, 0).unwrap();
    let (b, p) = read_u32(&buf, p).unwrap();
    let (c, p) = read_i32(&buf, p).unwrap();
    let (d, p) = read_u64(&buf, p).unwrap();
    assert_eq!((a, b, c, d, p), (7, u32::MAX, i32::MIN, 0xdead_beef_0000_0001, 17));
}

#[test]
fn composites_round_trip() {
    let mut buf = Vec::new();
    write_bytes(&mut buf, &[9, 8, 7]);
    write_string(&mut buf, "héllo");
    write_option_u64(&mut buf, None);
    write_option_u64(&mut buf, Some(5));
    write_seq_u64(&mut buf, &[1, 2, 3]);
    write_seq_u64(&mut buf, &[]);
    let (b, p) = read_bytes(&buf, 0).unwrap();
    let (s, p) = read_string(&buf, p).unwrap();
    let (o1, p) = read_option_u64(&buf, p).unwrap();
    let (o2, p) = read_option_u64(&buf, p).unwrap();
    let (v, p) = read_seq_u64(&buf, p).unwrap();
    let (e, p) = read_seq_u64(&buf, p).unwrap();
    assert_eq!(b, vec![9, 8, 7]);
    assert_eq!(s, "héllo");
    assert_eq!(o1, None);
    assert_eq!(o2, Some(5));
    assert_eq!(v, vec![1, 2, 3]);
    assert!(e.is_empty());
    assert_eq!(p, buf.len());
}

#[test]
fn string_encoding_has_length_prefix() {
    let mut buf = Vec::new();
    write_string(&mut buf, "hé");
    assert_eq!(buf, vec![0, 0, 0, 3, b'h', 0xc3, 0xa9]);
}

#[test]
fn decode_errors_are_reported() {
    assert_eq!(read_u32(&[1, 2, 3], 0), Err(EncodingError::UnexpectedEnd));
    assert_eq!(read_u64(&[0; 8], 1), Err(EncodingError::UnexpectedEnd));
    assert_eq!(read_u8(&[], 0), Err(EncodingError::UnexpectedEnd));
    assert_eq!(read_u8(&[1], 5), Err(EncodingError::UnexpectedEnd));
    assert_eq!(read_bytes(&[0, 0, 0, 4, 1, 2], 0), Err(EncodingError::UnexpectedEnd));
    assert_eq!(read_option_u64(&[2], 0), Err(EncodingError::InvalidFlag));
    assert_eq!(read_option_u64(&[1, 0, 0], 0), Err(EncodingError::UnexpectedEnd));
    assert_eq!(read_string(&[0, 0, 0, 1, 0xff], 0), Err(EncodingError::InvalidUtf8));
    assert_eq!(
        read_seq_u64(&[0, 0, 0, 2, 0, 0, 0, 0, 0, 0, 0, 1], 0),
        Err(EncodingError::UnexpectedEnd)
    );
}

#[test]
fn handles_are_unique_and_never_reused() {
    let mut reg: HandleRegistry<&str> = HandleRegistry::new();
    let mut seen = Vec::new();
    for name in ["a", "b", "c", "d", "e"] {
        let h = reg.register(name).unwrap();
        assert!(!seen.contains(&h));
        seen.push(h);
    }
    assert_eq!(reg.len(), 5);
    assert_eq!(reg.lookup(seen[2]), Some(&"c"));
    assert_eq!(reg.release(seen[2]), Ok("c"));
    assert_eq!(reg.lookup(seen[2]), None);
    assert_eq!(reg.release(seen[2]), Err(RegistryError::UnknownHandle));
    let h = reg.register("f").unwrap();
    assert!(!seen.contains(&h));
    assert_eq!(reg.len(), 5);
    assert_eq!(reg.lookup(h), Some(&"f"));
    assert_eq!(reg.lookup(seen[4]), Some(&"e"));
}

#[test]
fn free_is_issued_exactly_once() {
    let iface = abc();
    let mut p = Proxy::new(7);
    let inv = p.free().unwrap();
    assert_eq!((inv.handle, inv.method_index), (7, IDX_CALLBACK_FREE));
    assert!(inv.args.is_empty());
    assert!(p.is_freed());
    assert!(p.free().is_none());
    assert_eq!(p.call(&iface, 0, vec![]).unwrap_err(), CallRefused::Freed);
}

#[test]
fn method_indices_follow_declaration_order() {
    let iface = abc();
    let p = Proxy::new(1);
    assert_eq!(p.call(&iface, 0, vec![]).unwrap().method_index, 1);
    assert_eq!(p.call(&iface, 1, vec![]).unwrap().method_index, 2);
    assert_eq!(p.call(&iface, 2, vec![]).unwrap().method_index, 3);
    assert_eq!(p.call(&iface, 3, vec![]).unwrap_err(), CallRefused::UnknownMethod);
    assert_eq!(IDX_CALLBACK_FREE, 0);
}

#[test]
fn dispatch_error_leaves_handle_usable() {
    let iface = abc();
    let p = Proxy::new(3);
    let first = p.call(&iface, 1, vec![1]).unwrap();
    match complete_call(1, vec![0xee]) {
        Err(CallError::Dispatch(b)) => assert_eq!(b, vec![0xee]),
        other => panic!("{other:?}"),
    }
    let second = p.call(&iface, 1, vec![2]).unwrap();
    assert_eq!((first.handle, second.handle), (3, 3));
    assert_eq!(second.method_index, 2);
    assert!(!p.is_freed());
}

#[test]
fn calls_keep_their_own_arguments() {
    let iface = abc();
    let p = Proxy::new(11);
    let mut invs = Vec::new();
    for tag in 0..8i32 {
        let mut args = Vec::new();
        write_i32(&mut args, 1000 + tag);
        invs.push((tag, p.call(&iface, 1, args).unwrap()));
    }
    for (tag, inv) in invs {
        assert_eq!(read_i32(&inv.args, 0).unwrap().0, 1000 + tag);
        let mut ret = Vec::new();
        write_i32(&mut ret, -(1000 + tag));
        assert_eq!(lift_i32_return(0, ret).unwrap(), -(1000 + tag));
    }
}

#[test]
fn handle_42_scenario() {
    let iface = abc();
    let mut p = Proxy::new(42);
    let mut args = Vec::new();
    write_i32(&mut args, 17);
    let inv = p.call(&iface, 1, args).unwrap();
    assert_eq!((inv.handle, inv.method_index), (42, 2));
    // the foreign implementation doubles its argument and adds one
    let (x, _) = read_i32(&inv.args, 0).unwrap();
    let mut ret = Vec::new();
    write_i32(&mut ret, 2 * x + 1);
    assert_eq!(lift_i32_return(0, ret).unwrap(), 35);
    let mut frees = Vec::new();
    if let Some(inv) = p.free() {
        frees.push(inv);
    }
    if let Some(inv) = p.free() {
        frees.push(inv);
    }
    assert_eq!(frees.len(), 1);
    assert_eq!((frees[0].handle, frees[0].method_index), (42, 0));
}

#[test]
fn call_statuses_are_told_apart() {
    assert_eq!(complete_call(0, vec![1, 2]).unwrap(), vec![1, 2]);
    match complete_call(2, vec![]) {
        Err(CallError::Unexpected(r)) => assert_eq!(r, "[Unknown Reason]"),
        other => panic!("{other:?}"),
    }
    match complete_call(2, b"boom".to_vec()) {
        Err(CallError::Unexpected(r)) => assert_eq!(r, "boom"),
        other => panic!("{other:?}"),
    }
    match complete_call(2, vec![0xff, 0xfe]) {
        Err(CallError::Unexpected(r)) => assert_eq!(r, "[Error reading reason]"),
        other => panic!("{other:?}"),
    }
    assert!(matches!(complete_call(-1, vec![]), Err(CallError::UnknownStatus(-1))));
}

#[test]
fn return_value_must_fill_the_payload() {
    assert!(matches!(
        lift_i32_return(0, vec![0, 0, 1]),
        Err(CallError::Encoding(EncodingError::UnexpectedEnd))
    ));
    assert!(matches!(lift_i32_return(0, vec![0, 0, 0, 1, 9]), Err(CallError::TrailingBytes)));
    assert_eq!(lift_i32_return(0, vec![0, 0, 1, 0]).unwrap(), 256);
    assert!(matches!(lift_i32_return(1, vec![0, 0, 0, 1]), Err(CallError::Dispatch(_))));
}

#[test]
fn methods_need_a_receiver() {
    let mut bad = method("b", &[], 6);
    bad.takes_receiver = false;
    let r = CallbackInterface::new(
        "app".to_string(),
        "Worker".to_string(),
        vec![method("a", &[], 6), bad],
    );
    assert_eq!(r.unwrap_err(), DeclarationError::MissingReceiver(1));
    assert_eq!(abc().method_count(), 3);
}

#[test]
fn proxy_is_read_from_a_handle() {
    let (p, next) = Proxy::try_read(&[0, 0, 0, 0, 0, 0, 0, 42, 1], 0).unwrap();
    assert_eq!((p.handle(), next), (42, 8));
    assert!(!p.is_freed());
    assert_eq!(Proxy::try_read(&[0, 0, 0, 42], 0).unwrap_err(), EncodingError::UnexpectedEnd);
    assert_eq!(Proxy::try_lift(9).handle(), 9);
}

#[test]
fn metadata_layout() {
    assert_eq!(type_id_metadata("m", "T").unwrap(), vec![21, 1, b'm', 1, b'T']);
    let iface = abc();
    assert_eq!(
        interface_metadata(&iface).unwrap(),
        vec![9, 3, b'a', b'p', b'p', 6, b'W', b'o', b'r', b'k', b'e', b'r']
    );
    let b = method_metadata(&iface, 1).unwrap();
    let mut expected = vec![10, 3, b'a', b'p', b'p', 6, b'W', b'o', b'r', b'k', b'e', b'r'];
    expected.extend_from_slice(&[1, 0, 0, 0, 1, b'b', 0, 1, 1, b'x', 6, 6]);
    assert_eq!(b, expected);
    let items = interface_metadata_items(&iface).unwrap();
    assert_eq!(items.len(), 4);
    assert_eq!(items[2], expected);
    let long = "x".repeat(256);
    assert_eq!(type_id_metadata(&long, "T"), Err(MetadataError::TooLong));
    let mut args = Vec::new();
    for i in 0..200 {
        args.push(ArgDecl { name: format!("argument{i}"), type_code: 2 });
    }
    let big = CallbackInterface::new(
        "app".to_string(),
        "Big".to_string(),
        vec![MethodDecl { name: "m".to_string(), takes_receiver: true, args, return_type: 2 }],
    )
    .unwrap();
    assert_eq!(method_metadata(&big, 0), Err(MetadataError::TooLong));
}
