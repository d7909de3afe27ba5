//! Self-describing buffers that name a callback interface and its methods.
//!
//! They are built with uniffi's `MetadataBuffer`: a code byte, then strings
//! each preceded by a one-byte length, small values as single bytes and
//! method positions as four little-endian bytes.
use vstd::prelude::*;
use vstd::string::StringSliceAdditionalSpecFns;
use vstd::utf8::encode_utf8;
use crate::interface::{ArgDecl, CallbackInterface, MethodDecl};

verus! {

#[verifier::external_type_specification]
#[verifier::external_body]
pub struct ExMetadataBuffer(uniffi::MetadataBuffer);

/// The bytes written so far into a metadata buffer.
pub uninterp spec fn metadata_bytes(m: uniffi::MetadataBuffer) -> Seq<u8>;

/// Capacity of a metadata buffer.
pub const METADATA_CAPACITY: usize = 2048;

/// Code of a callback interface declaration.
pub const CODE_CALLBACK_INTERFACE: u8 = 9;

/// Code of a method of a callback interface.
pub const CODE_TRAIT_METHOD: u8 = 10;

/// Type code of a callback interface used as an argument or result type.
pub const TYPE_CALLBACK_INTERFACE: u8 = 21;

/// Relies on uniffi's MetadataBuffer::from_code: a buffer holding the one byte.
pub assume_specification[ uniffi::MetadataBuffer::from_code ](value: u8) -> (r: uniffi::MetadataBuffer)
    ensures
        metadata_bytes(r) == seq![value],
;

/// Relies on uniffi's MetadataBuffer::concat_value: appends the byte; it
/// asserts that the buffer has room for it.
pub assume_specification[ uniffi::MetadataBuffer::concat_value ](
    m: uniffi::MetadataBuffer,
    value: u8,
) -> (r: uniffi::MetadataBuffer)
    requires
        metadata_bytes(m).len() < 2048,
    ensures
        metadata_bytes(r) == metadata_bytes(m) + seq![value],
;

/// Relies on uniffi's MetadataBuffer::concat_u32: appends the four
/// little-endian bytes of the value; it asserts that they fit.
pub assume_specification[ uniffi::MetadataBuffer::concat_u32 ](
    m: uniffi::MetadataBuffer,
    value: u32,
) -> (r: uniffi::MetadataBuffer)
    requires
        metadata_bytes(m).len() + 4 <= 2048,
    ensures
        metadata_bytes(r) == metadata_bytes(m) + le_u32(value),
;

/// Relies on uniffi's MetadataBuffer::concat_str: appends the string's byte
/// length as one byte, then its UTF-8 bytes; it asserts that the length is
/// below 256 and that the bytes fit.
pub assume_specification[ uniffi::MetadataBuffer::concat_str ](
    m: uniffi::MetadataBuffer,
    string: &str,
) -> (r: uniffi::MetadataBuffer)
    requires
        string.spec_bytes().len() < 256,
        metadata_bytes(m).len() + string.spec_bytes().len() < 2048,
    ensures
        metadata_bytes(r) == metadata_bytes(m) + meta_str(string.spec_bytes()),
;

/// Relies on uniffi's `AsRef<[u8]>` for MetadataBuffer: the bytes written so far.
pub assume_specification[ <uniffi::MetadataBuffer as core::convert::AsRef<[u8]>>::as_ref ](
    m: &uniffi::MetadataBuffer,
) -> (r: &[u8])
    ensures
        r@ == metadata_bytes(*m),
;

/// Four little-endian bytes of a `u32`.
pub open spec fn le_u32(v: u32) -> Seq<u8> {
    seq![v as u8, (v >> 8u32) as u8, (v >> 16u32) as u8, (v >> 24u32) as u8]
}

/// A string in a metadata buffer: its length as one byte, then its bytes.
pub open spec fn meta_str(b: Seq<u8>) -> Seq<u8> {
    seq![b.len() as u8] + b
}

/// The UTF-8 bytes of text.
pub open spec fn utf8(s: Seq<char>) -> Seq<u8> {
    encode_utf8(s)
}

/// The type descriptor of a callback interface.
pub open spec fn type_id_meta(module: Seq<char>, name: Seq<char>) -> Seq<u8> {
    seq![TYPE_CALLBACK_INTERFACE] + meta_str(utf8(module)) + meta_str(utf8(name))
}

/// The descriptor of a callback interface declaration.
pub open spec fn interface_meta(module: Seq<char>, name: Seq<char>) -> Seq<u8> {
    seq![CODE_CALLBACK_INTERFACE] + meta_str(utf8(module)) + meta_str(utf8(name))
}

/// The arguments of a method, one after another: name, then type code.
pub open spec fn args_meta(args: Seq<ArgDecl>) -> Seq<u8>
    decreases args.len(),
{
    if args.len() == 0 {
        seq![]
    } else {
        args_meta(args.drop_last()) + meta_str(utf8(args.last().name@)) + seq![args.last().type_code]
    }
}

/// The descriptor of the method at `position` of an interface.
pub open spec fn method_meta(module: Seq<char>, iface_name: Seq<char>, position: u32, m: MethodDecl) -> Seq<u8> {
    seq![CODE_TRAIT_METHOD] + meta_str(utf8(module)) + meta_str(utf8(iface_name)) + le_u32(position)
        + meta_str(utf8(m.name@)) + seq![0u8, m.args@.len() as u8] + args_meta(m.args@) + seq![
        m.return_type]
}

/// Whether every argument name is shorter than 256 bytes.
pub open spec fn arg_names_fit(args: Seq<ArgDecl>) -> bool {
    forall|i: int| 0 <= i < args.len() ==> utf8((#[trigger] args[i]).name@).len() < 256
}

/// Whether the descriptor of a method can be built: each string shorter
/// than 256 bytes, fewer than 256 arguments, and the whole within capacity.
pub open spec fn method_meta_fits(module: Seq<char>, iface_name: Seq<char>, position: u32, m: MethodDecl) -> bool {
    &&& utf8(module).len() < 256
    &&& utf8(iface_name).len() < 256
    &&& utf8(m.name@).len() < 256
    &&& m.args@.len() < 256
    &&& arg_names_fit(m.args@)
    &&& method_meta(module, iface_name, position, m).len() <= METADATA_CAPACITY
}

/// Why a descriptor cannot be built.
#[derive(Debug, Clone, Copy, PartialEq, Eq, Structural)]
pub enum MetadataError {
    /// A string, the argument list or the whole is too long for a metadata buffer.
    TooLong,
}

/// The type descriptor of the callback interface `name` declared in `module`.
pub fn type_id_metadata(module: &str, name: &str) -> (r: Result<Vec<u8>, MetadataError>)
    ensures
        r is Ok <==> module.spec_bytes().len() < 256 && name.spec_bytes().len() < 256,
        r matches Ok(b) ==> b@ == type_id_meta(module@, name@),
{
    if module.as_bytes().len() >= 256 || name.as_bytes().len() >= 256 {
        return Err(MetadataError::TooLong);
    }
    let m = uniffi::MetadataBuffer::from_code(TYPE_CALLBACK_INTERFACE).concat_str(module).concat_str(
        name,
    );
    let b = vstd::slice::slice_to_vec(m.as_ref());
    assert(b@ =~= type_id_meta(module@, name@));
    Ok(b)
}

/// The descriptor of the declaration of `iface`.
pub fn interface_metadata(iface: &CallbackInterface) -> (r: Result<Vec<u8>, MetadataError>)
    ensures
        r is Ok <==> utf8(iface.module@).len() < 256 && utf8(iface.name@).len() < 256,
        r matches Ok(b) ==> b@ == interface_meta(iface.module@, iface.name@),
{
    let module = iface.module.as_str();
    let name = iface.name.as_str();
    if module.as_bytes().len() >= 256 || name.as_bytes().len() >= 256 {
        return Err(MetadataError::TooLong);
    }
    let m = uniffi::MetadataBuffer::from_code(CODE_CALLBACK_INTERFACE).concat_str(module).concat_str(
        name,
    );
    let b = vstd::slice::slice_to_vec(m.as_ref());
    assert(b@ =~= interface_meta(iface.module@, iface.name@));
    Ok(b)
}

/// The descriptor of the arguments grows by each argument's part.
proof fn lemma_args_meta_prefix(args: Seq<ArgDecl>, i: int)
    requires
        0 <= i < args.len(),
    ensures
        args_meta(args).len() >= args_meta(args.subrange(0, i)).len() + meta_str(
            utf8(args[i].name@),
        ).len() + 1,
    decreases args.len(),
{
    let init = args.drop_last();
    if i == args.len() - 1 {
        assert(init =~= args.subrange(0, i));
    } else {
        lemma_args_meta_prefix(init, i);
        assert(init.subrange(0, i) =~= args.subrange(0, i));
    }
}

/// The descriptor of the method declared at `position` of `iface`.
pub fn method_metadata(iface: &CallbackInterface, position: usize) -> (r: Result<Vec<u8>, MetadataError>)
    requires
        iface.wf(),
        position < iface.methods@.len(),
    ensures
        r is Ok <==> method_meta_fits(
            iface.module@,
            iface.name@,
            position as u32,
            iface.methods@[position as int],
        ),
        r matches Ok(b) ==> b@ == method_meta(
            iface.module@,
            iface.name@,
            position as u32,
            iface.methods@[position as int],
        ),
{
    let method = &iface.methods[position];
    let module = iface.module.as_str();
    let name = iface.name.as_str();
    let mname = method.name.as_str();
    let ghost total = method_meta(iface.module@, iface.name@, position as u32, *method);
    if module.as_bytes().len() >= 256 || name.as_bytes().len() >= 256 || mname.as_bytes().len()
        >= 256 || method.args.len() >= 256 {
        return Err(MetadataError::TooLong);
    }
    let mut m = uniffi::MetadataBuffer::from_code(CODE_TRAIT_METHOD).concat_str(module).concat_str(
        name,
    ).concat_u32(position as u32).concat_str(mname).concat_value(0u8).concat_value(
        method.args.len() as u8,
    );
    let ghost head = metadata_bytes(m);
    assert(head =~= seq![CODE_TRAIT_METHOD] + meta_str(utf8(iface.module@)) + meta_str(
        utf8(iface.name@),
    ) + le_u32(position as u32) + meta_str(utf8(method.name@)) + seq![0u8, method.args@.len() as u8]);
    let mut i: usize = 0;
    while i < method.args.len()
        invariant
            i <= method.args@.len(),
            method == iface.methods@[position as int],
            total == method_meta(iface.module@, iface.name@, position as u32, *method),
            total == head + args_meta(method.args@) + seq![method.return_type],
            metadata_bytes(m) == head + args_meta(method.args@.subrange(0, i as int)),
            metadata_bytes(m).len() <= METADATA_CAPACITY,
            forall|j: int| 0 <= j < i ==> utf8((#[trigger] method.args@[j]).name@).len() < 256,
        decreases method.args@.len() - i,
    {
        let arg = &method.args[i];
        let aname = arg.name.as_str();
        let used = m.as_ref().len();
        if aname.as_bytes().len() >= 256 {
            return Err(MetadataError::TooLong);
        }
        if used + aname.as_bytes().len() + 2 > METADATA_CAPACITY {
            proof {
                lemma_args_meta_prefix(method.args@, i as int);
            }
            return Err(MetadataError::TooLong);
        }
        m = m.concat_str(aname).concat_value(arg.type_code);
        i = i + 1;
        proof {
            let sub = method.args@.subrange(0, i as int);
            assert(sub.drop_last() =~= method.args@.subrange(0, i - 1));
        }
    }
    assert(method.args@.subrange(0, i as int) =~= method.args@);
    if m.as_ref().len() >= METADATA_CAPACITY {
        return Err(MetadataError::TooLong);
    }
    m = m.concat_value(method.return_type);
    let b = vstd::slice::slice_to_vec(m.as_ref());
    Ok(b)
}

/// The descriptors of `iface`: its declaration first, then each method in
/// the order of their method indices.
pub fn interface_metadata_items(iface: &CallbackInterface) -> (r: Result<Vec<Vec<u8>>, MetadataError>)
    requires
        iface.wf(),
    ensures
        r is Ok <==> (utf8(iface.module@).len() < 256 && utf8(iface.name@).len() < 256 && forall|
            i: int,
        |
            0 <= i < iface.methods@.len() ==> method_meta_fits(
                iface.module@,
                iface.name@,
                i as u32,
                #[trigger] iface.methods@[i],
            )),
        r matches Ok(items) ==> {
            &&& items@.len() == iface.methods@.len() + 1
            &&& items@[0]@ == interface_meta(iface.module@, iface.name@)
            &&& forall|i: int|
                0 <= i < iface.methods@.len() ==> (#[trigger] items@[i + 1])@ == method_meta(
                    iface.module@,
                    iface.name@,
                    i as u32,
                    iface.methods@[i],
                )
        },
{
    let first = match interface_metadata(iface) {
        Ok(b) => b,
        Err(e) => return Err(e),
    };
    let mut items: Vec<Vec<u8>> = Vec::new();
    items.push(first);
    let mut i: usize = 0;
    while i < iface.methods.len()
        invariant
            iface.wf(),
            i <= iface.methods@.len(),
            utf8(iface.module@).len() < 256 && utf8(iface.name@).len() < 256,
            items@.len() == i + 1,
            items@[0]@ == interface_meta(iface.module@, iface.name@),
            forall|j: int|
                0 <= j < i ==> method_meta_fits(
                    iface.module@,
                    iface.name@,
                    j as u32,
                    #[trigger] iface.methods@[j],
                ),
            forall|j: int|
                0 <= j < i ==> (#[trigger] items@[j + 1])@ == method_meta(
                    iface.module@,
                    iface.name@,
                    j as u32,
                    iface.methods@[j],
                ),
        decreases iface.methods@.len() - i,
    {
        match method_metadata(iface, i) {
            Ok(b) => {
                items.push(b);
            },
            Err(e) => {
                return Err(e);
            },
        }
        i = i + 1;
    }
    Ok(items)
}

} // verus!
