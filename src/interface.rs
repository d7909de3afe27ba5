//! Declarations of callback interfaces: their methods in declaration order.
use vstd::prelude::*;

verus! {

/// One argument of a method: its name and its type code.
#[derive(Debug, Clone)]
pub struct ArgDecl {
    pub name: String,
    pub type_code: u8,
}

/// One method of a callback interface.
#[derive(Debug, Clone)]
pub struct MethodDecl {
    pub name: String,
    /// Whether the method takes the proxy itself as its receiver.
    pub takes_receiver: bool,
    pub args: Vec<ArgDecl>,
    pub return_type: u8,
}

/// Why a declaration is refused.
#[derive(Debug, Clone, Copy, PartialEq, Eq, Structural)]
pub enum DeclarationError {
    /// The method at this position does not take the proxy as receiver.
    MissingReceiver(usize),
    /// More methods than method indices can tell apart.
    TooManyMethods,
}

/// A callback interface: where it is declared, its name and its methods.
#[derive(Debug, Clone)]
pub struct CallbackInterface {
    pub module: String,
    pub name: String,
    pub methods: Vec<MethodDecl>,
}

/// Whether every method of `methods` takes a receiver.
pub open spec fn all_take_receiver(methods: Seq<MethodDecl>) -> bool {
    forall|i: int| 0 <= i < methods.len() ==> #[trigger] methods[i].takes_receiver
}

/// Position of the first method of `methods` without a receiver.
pub open spec fn first_without_receiver(methods: Seq<MethodDecl>, i: int) -> bool {
    &&& 0 <= i < methods.len()
    &&& !methods[i].takes_receiver
    &&& forall|j: int| 0 <= j < i ==> #[trigger] methods[j].takes_receiver
}

impl CallbackInterface {
    /// A declaration that can be called through: every method takes a
    /// receiver, and each one has a method index of its own.
    pub open spec fn wf(&self) -> bool {
        &&& all_take_receiver(self.methods@)
        &&& self.methods@.len() < u32::MAX
    }

    /// Declares an interface, refusing methods without a receiver.
    pub fn new(module: String, name: String, methods: Vec<MethodDecl>) -> (r: Result<
        CallbackInterface,
        DeclarationError,
    >)
        ensures
            r is Ok <==> all_take_receiver(methods@) && methods@.len() < u32::MAX,
            r matches Ok(d) ==> d.module == module && d.name == name && d.methods@
                == methods@ && d.wf(),
            r matches Err(DeclarationError::MissingReceiver(i)) ==> first_without_receiver(
                methods@,
                i as int,
            ),
            r matches Err(DeclarationError::TooManyMethods) ==> all_take_receiver(methods@)
                && methods@.len() >= u32::MAX,
    {
        let mut i: usize = 0;
        while i < methods.len()
            invariant
                i <= methods@.len(),
                forall|j: int| 0 <= j < i ==> #[trigger] methods@[j].takes_receiver,
            decreases methods@.len() - i,
        {
            if !methods[i].takes_receiver {
                return Err(DeclarationError::MissingReceiver(i));
            }
            i = i + 1;
        }
        if methods.len() >= u32::MAX as usize {
            return Err(DeclarationError::TooManyMethods);
        }
        Ok(CallbackInterface { module, name, methods })
    }

    /// Number of declared methods.
    pub fn method_count(&self) -> (r: usize)
        ensures
            r == self.methods@.len(),
    {
        self.methods.len()
    }
}

} // verus!
