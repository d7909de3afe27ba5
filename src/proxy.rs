//! The native stand-in for a foreign implementation of a callback interface.
//!
//! A proxy holds the handle of one foreign object. Calling a method yields the
//! invocation to ship across the boundary; freeing the proxy yields the single
//! free invocation, after which the proxy refuses every call.
use vstd::prelude::*;
use crate::codec::{dec_u64, read_u64, EncodingError};
use crate::interface::CallbackInterface;

verus! {

/// Method index of the free call, which releases the foreign object.
pub const IDX_CALLBACK_FREE: u32 = 0;

/// One crossing of the boundary: which object, which method, which arguments.
#[derive(Debug, Clone)]
pub struct Invocation {
    pub handle: u64,
    pub method_index: u32,
    pub args: Vec<u8>,
}

/// Why a call was not made.
#[derive(Debug, Clone, Copy, PartialEq, Eq, Structural)]
pub enum CallRefused {
    /// The proxy has been freed: its handle may name nothing any more.
    Freed,
    /// The interface declares no method at this position.
    UnknownMethod,
}

/// What a proxy is: the handle it holds and whether it has been freed.
#[derive(Debug, Clone, Copy, PartialEq, Eq, Structural)]
pub struct ProxyState {
    pub handle: u64,
    pub freed: bool,
}

/// An operation on a proxy.
pub enum ProxyOp {
    /// A call of the method declared at this position.
    Call(usize),
    /// Destruction of the proxy.
    Free,
}

/// Native stand-in for one foreign object.
#[derive(Debug)]
pub struct Proxy {
    handle: u64,
    freed: bool,
}

impl View for Proxy {
    type V = ProxyState;

    closed spec fn view(&self) -> ProxyState {
        ProxyState { handle: self.handle, freed: self.freed }
    }
}

/// The method index of the method declared at `position`: index 0 is the free
/// call, so methods count from 1.
pub open spec fn method_index(position: int) -> int {
    position + 1
}

/// The method index of the method declared at `position`.
pub fn method_index_for(position: usize) -> (r: u32)
    requires
        position < u32::MAX,
    ensures
        r == method_index(position as int),
{
    (position + 1) as u32
}

/// The method index that a call at `position` is shipped with, if the call is
/// made.
pub open spec fn call_index(p: ProxyState, position: int, method_count: int) -> Option<u32> {
    if !p.freed && 0 <= position < method_count && method_index(position) <= u32::MAX {
        Some(method_index(position) as u32)
    } else {
        None
    }
}

/// One operation on a proxy: the proxy after it, and the (handle, method
/// index) shipped, if any.
pub open spec fn step(p: ProxyState, op: ProxyOp, method_count: int) -> (ProxyState, Option<(u64, u32)>) {
    match op {
        ProxyOp::Call(position) => match call_index(p, position as int, method_count) {
            Some(index) => (p, Some((p.handle, index))),
            None => (p, None),
        },
        ProxyOp::Free => if p.freed {
            (p, None)
        } else {
            (ProxyState { handle: p.handle, freed: true }, Some((p.handle, IDX_CALLBACK_FREE)))
        },
    }
}

/// What a run of operations ships across the boundary, in order.
pub open spec fn trace(p: ProxyState, ops: Seq<ProxyOp>, method_count: int) -> Seq<(u64, u32)>
    decreases ops.len(),
{
    if ops.len() == 0 {
        seq![]
    } else {
        let (next, sent) = step(p, ops[0], method_count);
        let rest = trace(next, ops.drop_first(), method_count);
        match sent {
            Some(s) => seq![s] + rest,
            None => rest,
        }
    }
}

/// Number of free calls in a trace.
pub open spec fn free_count(t: Seq<(u64, u32)>) -> nat
    decreases t.len(),
{
    if t.len() == 0 {
        0
    } else {
        (if t[0].1 == IDX_CALLBACK_FREE { 1nat } else { 0nat }) + free_count(t.drop_first())
    }
}

/// Whether a run of operations destroys the proxy somewhere.
pub open spec fn has_free(ops: Seq<ProxyOp>) -> bool {
    exists|i: int| 0 <= i < ops.len() && #[trigger] ops[i] is Free
}

impl Proxy {
    /// A proxy for the foreign object named by `handle`.
    pub fn new(handle: u64) -> (r: Proxy)
        ensures
            r@ == (ProxyState { handle, freed: false }),
    {
        Proxy { handle, freed: false }
    }

    /// A proxy for the handle passed across the boundary as `v`.
    pub fn try_lift(v: u64) -> (r: Proxy)
        ensures
            r@ == (ProxyState { handle: v, freed: false }),
    {
        Proxy::new(v)
    }

    /// Reads a handle at `pos` of a call buffer and wraps it in a proxy.
    pub fn try_read(buf: &[u8], pos: usize) -> (r: Result<(Proxy, usize), EncodingError>)
        ensures
            match r {
                Ok((p, next)) => dec_u64(buf@, pos) == Ok::<(u64, usize), EncodingError>(
                    (p@.handle, next),
                ) && !p@.freed,
                Err(e) => dec_u64(buf@, pos) == Err::<(u64, usize), EncodingError>(e),
            },
    {
        match read_u64(buf, pos) {
            Ok((v, next)) => Ok((Proxy::try_lift(v), next)),
            Err(e) => Err(e),
        }
    }

    /// The handle of the foreign object.
    pub fn handle(&self) -> (r: u64)
        ensures
            r == self@.handle,
    {
        self.handle
    }

    /// Whether the free call has been issued.
    pub fn is_freed(&self) -> (r: bool)
        ensures
            r == self@.freed,
    {
        self.freed
    }

    /// Calls the method declared at `position` of `iface` with the encoded
    /// arguments `args`: the invocation to ship, or why there is none.
    pub fn call(&self, iface: &CallbackInterface, position: usize, args: Vec<u8>) -> (r: Result<
        Invocation,
        CallRefused,
    >)
        requires
            iface.wf(),
        ensures
            r is Ok <==> call_index(self@, position as int, iface.methods@.len() as int) is Some,
            r is Ok <==> !self@.freed && position < iface.methods@.len(),
            r matches Ok(inv) ==> inv.handle == self@.handle && inv.method_index == method_index(
                position as int,
            ) && Some(inv.method_index) == call_index(
                self@,
                position as int,
                iface.methods@.len() as int,
            ) && inv.args@ == args@,
            r matches Err(e) ==> e == (if self@.freed {
                CallRefused::Freed
            } else {
                CallRefused::UnknownMethod
            }),
    {
        if self.freed {
            return Err(CallRefused::Freed);
        }
        if position >= iface.methods.len() {
            return Err(CallRefused::UnknownMethod);
        }
        Ok(Invocation { handle: self.handle, method_index: method_index_for(position), args })
    }

    /// Destroys the proxy: the free call the first time, nothing after.
    pub fn free(&mut self) -> (r: Option<Invocation>)
        ensures
            final(self)@ == step(old(self)@, ProxyOp::Free, 0).0,
            final(self)@ == (ProxyState { handle: old(self)@.handle, freed: true }),
            r is Some <==> !old(self)@.freed,
            r matches Some(inv) ==> Some((inv.handle, inv.method_index)) == step(
                old(self)@,
                ProxyOp::Free,
                0,
            ).1 && inv.handle == old(self)@.handle && inv.method_index == IDX_CALLBACK_FREE
                && inv.args@.len() == 0,
    {
        if self.freed {
            return None;
        }
        self.freed = true;
        Some(Invocation { handle: self.handle, method_index: IDX_CALLBACK_FREE, args: Vec::new() })
    }
}

/// A freed proxy ships nothing, whatever is done to it.
pub proof fn lemma_freed_ships_nothing(p: ProxyState, ops: Seq<ProxyOp>, method_count: int)
    requires
        p.freed,
    ensures
        trace(p, ops, method_count) == Seq::<(u64, u32)>::empty(),
    decreases ops.len(),
{
    if ops.len() > 0 {
        lemma_freed_ships_nothing(p, ops.drop_first(), method_count);
    }
}

/// Exactly-once free: starting from a live proxy, any run of operations ships
/// the free call once if it destroys the proxy and never otherwise, ships no
/// call after the free call, and ships everything to the proxy's own handle.
pub proof fn lemma_free_exactly_once(p: ProxyState, ops: Seq<ProxyOp>, method_count: int)
    requires
        !p.freed,
    ensures
        free_count(trace(p, ops, method_count)) == (if has_free(ops) { 1nat } else { 0nat }),
        forall|i: int|
            0 <= i < trace(p, ops, method_count).len() && (#[trigger] trace(
                p,
                ops,
                method_count,
            )[i]).1 == IDX_CALLBACK_FREE ==> i == trace(p, ops, method_count).len() - 1,
        forall|i: int|
            0 <= i < trace(p, ops, method_count).len() ==> (#[trigger] trace(
                p,
                ops,
                method_count,
            )[i]).0 == p.handle,
    decreases ops.len(),
{
    let t = trace(p, ops, method_count);
    if ops.len() == 0 {
        assert(!has_free(ops));
    } else {
        let tail = ops.drop_first();
        match ops[0] {
            ProxyOp::Call(position) => {
                lemma_free_exactly_once(p, tail, method_count);
                let rest = trace(p, tail, method_count);
                assert(has_free(ops) == has_free(tail)) by {
                    if has_free(tail) {
                        let i = choose|i: int| 0 <= i < tail.len() && #[trigger] tail[i] is Free;
                        assert(ops[i + 1] is Free);
                    }
                    if has_free(ops) {
                        let i = choose|i: int| 0 <= i < ops.len() && #[trigger] ops[i] is Free;
                        assert(i > 0);
                        assert(tail[i - 1] is Free);
                    }
                }
                match call_index(p, position as int, method_count) {
                    Some(index) => {
                        assert(t == seq![(p.handle, index)] + rest);
                        assert(t.drop_first() =~= rest);
                        assert(index != IDX_CALLBACK_FREE);
                        assert(free_count(t) == free_count(rest));
                        assert forall|i: int| 0 < i < t.len() implies t[i] == rest[i - 1] by {}
                    },
                    None => {
                        assert(t == rest);
                    },
                }
            },
            ProxyOp::Free => {
                let freed = ProxyState { handle: p.handle, freed: true };
                lemma_freed_ships_nothing(freed, tail, method_count);
                assert(t =~= seq![(p.handle, IDX_CALLBACK_FREE)]);
                assert(ops[0] is Free);
                assert(has_free(ops));
                assert(t.drop_first() =~= Seq::<(u64, u32)>::empty());
                assert(free_count(Seq::<(u64, u32)>::empty()) == 0);
                assert(free_count(t) == 1);
            },
        }
    }
}

/// A call, whatever comes of it on the foreign side, leaves the proxy as it
/// was: later calls are shipped exactly as they would have been without it.
pub proof fn lemma_call_keeps_proxy(p: ProxyState, position: usize, later: usize, method_count: int)
    ensures
        step(p, ProxyOp::Call(position), method_count).0 == p,
        call_index(step(p, ProxyOp::Call(position), method_count).0, later as int, method_count)
            == call_index(p, later as int, method_count),
{
}

} // verus!
