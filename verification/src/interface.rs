//! The description of a contract: its functions by name, each with the
//! selector that calls it and the types of what it takes and returns.

use vstd::prelude::*;
use vstd::utf8::{encode_utf8, encode_utf8_decode_utf8};
use crate::abi::{all_fit, encoded, models, AbiModel, AbiType, AbiValue, EncodingError, WordType};
use crate::abi_decode::{decode_values, decoded, DecodingError};
use crate::abi_encode::{append_bytes, encode_values};
use crate::abi_laws::lemma_decode_inverts_encode;
use crate::hash::{keccak256, keccak256_of};

verus! {

/// The decimal digits of `n`, as ASCII bytes.
pub open spec fn decimal(n: nat) -> Seq<u8>
    decreases n,
{
    if n < 10 {
        seq![(48 + n) as u8]
    } else {
        decimal(n / 10).push((48 + n % 10) as u8)
    }
}

/// The name of a one-word type, as ASCII bytes: `uint` and its bits, `bool` or `address`.
pub open spec fn word_type_text(t: WordType) -> Seq<u8> {
    match t {
        WordType::Uint(bits) => seq![117u8, 105u8, 110u8, 116u8] + decimal(bits as nat),
        WordType::Bool => seq![98u8, 111u8, 111u8, 108u8],
        WordType::Address => seq![97u8, 100u8, 100u8, 114u8, 101u8, 115u8, 115u8],
    }
}

/// The name of a type, as ASCII bytes: that of a one-word type, `bytes`,
/// `string`, or an item type followed by `[]`.
pub open spec fn type_text(t: AbiType) -> Seq<u8> {
    match t {
        AbiType::Word(wt) => word_type_text(wt),
        AbiType::Bytes => seq![98u8, 121u8, 116u8, 101u8, 115u8],
        AbiType::Str => seq![115u8, 116u8, 114u8, 105u8, 110u8, 103u8],
        AbiType::Array(wt) => word_type_text(wt) + seq![91u8, 93u8],
    }
}

/// The names of the first `k` types, with a comma between each two.
pub open spec fn type_list(types: Seq<AbiType>, k: nat) -> Seq<u8>
    decreases k,
{
    if k == 0 {
        Seq::empty()
    } else if k == 1 {
        type_text(types[0])
    } else {
        type_list(types, (k - 1) as nat) + seq![44u8] + type_text(types[k - 1])
    }
}

/// The canonical signature of a function: its name, then the names of its
/// parameter types in round brackets.
pub open spec fn signature_of(name: Seq<char>, inputs: Seq<AbiType>) -> Seq<u8> {
    encode_utf8(name) + seq![40u8] + type_list(inputs, inputs.len()) + seq![41u8]
}

/// The selector of a function: the first four bytes of the digest of its signature.
pub open spec fn selector_of(name: Seq<char>, inputs: Seq<AbiType>) -> Seq<u8> {
    Seq::new(4, |i: int| keccak256_of(signature_of(name, inputs))[i])
}

fn push_decimal(out: &mut Vec<u8>, n: u16)
    ensures
        final(out)@ == old(out)@ + decimal(n as nat),
    decreases n,
{
    if n >= 10 {
        push_decimal(out, n / 10);
    }
    out.push(48 + (n % 10) as u8);
    assert(out@ =~= old(out)@ + decimal(n as nat));
}

fn push_word_type_text(out: &mut Vec<u8>, t: WordType)
    ensures
        final(out)@ == old(out)@ + word_type_text(t),
{
    match t {
        WordType::Uint(bits) => {
            out.push(117u8);
            out.push(105u8);
            out.push(110u8);
            out.push(116u8);
            push_decimal(out, bits);
        },
        WordType::Bool => {
            out.push(98u8);
            out.push(111u8);
            out.push(111u8);
            out.push(108u8);
        },
        WordType::Address => {
            out.push(97u8);
            out.push(100u8);
            out.push(100u8);
            out.push(114u8);
            out.push(101u8);
            out.push(115u8);
            out.push(115u8);
        },
    }
    assert(out@ =~= old(out)@ + word_type_text(t));
}

fn push_type_text(out: &mut Vec<u8>, t: AbiType)
    ensures
        final(out)@ == old(out)@ + type_text(t),
{
    match t {
        AbiType::Word(wt) => push_word_type_text(out, wt),
        AbiType::Bytes => {
            out.push(98u8);
            out.push(121u8);
            out.push(116u8);
            out.push(101u8);
            out.push(115u8);
        },
        AbiType::Str => {
            out.push(115u8);
            out.push(116u8);
            out.push(114u8);
            out.push(105u8);
            out.push(110u8);
            out.push(103u8);
        },
        AbiType::Array(wt) => {
            push_word_type_text(out, wt);
            out.push(91u8);
            out.push(93u8);
        },
    }
    assert(out@ =~= old(out)@ + type_text(t));
}

/// The canonical signature of a function.
pub fn signature(name: &str, inputs: &[AbiType]) -> (r: Vec<u8>)
    ensures
        r@ == signature_of(name@, inputs@),
{
    let mut out: Vec<u8> = Vec::new();
    append_bytes(&mut out, name.as_bytes());
    out.push(40u8);
    let ghost front = out@;
    let n: usize = inputs.len();
    let mut i: usize = 0;
    while i < n
        invariant
            i <= n,
            n == inputs@.len(),
            front == encode_utf8(name@) + seq![40u8],
            out@ == front + type_list(inputs@, i as nat),
        decreases n - i,
    {
        if i > 0 {
            out.push(44u8);
        }
        push_type_text(&mut out, inputs[i]);
        assert(out@ =~= front + type_list(inputs@, (i + 1) as nat));
        i += 1;
    }
    out.push(41u8);
    out
}

/// The selector of a function.
pub fn selector(name: &str, inputs: &[AbiType]) -> (r: [u8; 4])
    ensures
        r@ == selector_of(name@, inputs@),
{
    let text = signature(name, inputs);
    let digest = keccak256(text.as_slice());
    let r = leading_four(&digest);
    assert(r@ =~= selector_of(name@, inputs@));
    r
}

/// The first four bytes of a digest.
pub fn leading_four(digest: &[u8; 32]) -> (r: [u8; 4])
    ensures
        r@ == digest@.take(4),
{
    let r: [u8; 4] = [digest[0], digest[1], digest[2], digest[3]];
    assert(r@ =~= digest@.take(4));
    r
}

/// Whether two texts are the same.
pub fn same_text(a: &str, b: &str) -> (r: bool)
    ensures
        r == (a@ == b@),
{
    let x = a.as_bytes();
    let y = b.as_bytes();
    proof {
        encode_utf8_decode_utf8(a@);
        encode_utf8_decode_utf8(b@);
    }
    if x.len() != y.len() {
        return false;
    }
    let n: usize = x.len();
    let mut i: usize = 0;
    while i < n
        invariant
            i <= n,
            n == x@.len(),
            n == y@.len(),
            x@ == encode_utf8(a@),
            y@ == encode_utf8(b@),
            forall|j: int| 0 <= j < i ==> x@[j] == y@[j],
        decreases n - i,
    {
        if x[i] != y[i] {
            return false;
        }
        i += 1;
    }
    assert(x@ =~= y@);
    true
}

/// What a function of a contract is: its name and the types of what it takes and returns.
pub struct FunctionModel {
    pub name: Seq<char>,
    pub inputs: Seq<AbiType>,
    pub outputs: Seq<AbiType>,
}

/// The bytes of a call: the function's selector, then the block of its arguments.
pub open spec fn call_bytes(f: FunctionModel, args: Seq<AbiModel>) -> Seq<u8> {
    selector_of(f.name, f.inputs) + encoded(args)
}

/// A function of a contract, with its selector.
#[derive(Debug)]
pub struct Function {
    name: String,
    selector: [u8; 4],
    inputs: Vec<AbiType>,
    outputs: Vec<AbiType>,
}

impl View for Function {
    type V = FunctionModel;

    closed spec fn view(&self) -> FunctionModel {
        FunctionModel { name: self.name@, inputs: self.inputs@, outputs: self.outputs@ }
    }
}

impl Function {
    #[verifier::type_invariant]
    spec fn selector_is_canonical(self) -> bool {
        self.selector@ == selector_of(self.name@, self.inputs@)
    }

    /// Declares a function and derives its selector.
    pub fn new(name: &str, inputs: Vec<AbiType>, outputs: Vec<AbiType>) -> (r: Function)
        ensures
            r@ == (FunctionModel { name: name@, inputs: inputs@, outputs: outputs@ }),
    {
        let selector = selector(name, inputs.as_slice());
        Function { name: name.to_owned(), selector, inputs, outputs }
    }

    pub fn name(&self) -> (r: &str)
        ensures
            r@ == self@.name,
    {
        self.name.as_str()
    }

    /// The four bytes that a call of the function begins with.
    pub fn selector(&self) -> (r: [u8; 4])
        ensures
            r@ == selector_of(self@.name, self@.inputs),
    {
        proof {
            use_type_invariant(self);
        }
        self.selector
    }

    pub fn inputs(&self) -> (r: &[AbiType])
        ensures
            r@ == self@.inputs,
    {
        self.inputs.as_slice()
    }

    pub fn outputs(&self) -> (r: &[AbiType])
        ensures
            r@ == self@.outputs,
    {
        self.outputs.as_slice()
    }

    /// The bytes of a call of this function with the given arguments.
    ///
    /// They are the selector followed by the argument block. The call is
    /// refused where the arguments are not as many as the parameters, where
    /// one lies outside its parameter's type, and where the bytes would not
    /// fit in memory.
    pub fn encode_call(&self, args: &[AbiValue]) -> (r: Result<Vec<u8>, EncodingError>)
        ensures
            match r {
                Ok(bytes) => all_fit(self@.inputs, models(args@)) && bytes@ == call_bytes(
                    self@,
                    models(args@),
                ),
                Err(EncodingError::ArityMismatch) => self@.inputs.len() != args@.len(),
                Err(EncodingError::TypeMismatch) => self@.inputs.len() == args@.len() && !all_fit(
                    self@.inputs,
                    models(args@),
                ),
                Err(EncodingError::TooLarge) => all_fit(self@.inputs, models(args@)) && call_bytes(
                    self@,
                    models(args@),
                ).len() > usize::MAX,
                Err(EncodingError::UnknownFunction) => false,
            },
    {
        let mut block = match encode_values(self.inputs.as_slice(), args) {
            Ok(block) => block,
            Err(e) => {
                return Err(e);
            },
        };
        let selector = self.selector();
        if block.len() > usize::MAX - 4 {
            return Err(EncodingError::TooLarge);
        }
        let mut out: Vec<u8> = Vec::new();
        append_bytes(&mut out, selector.as_slice());
        out.append(&mut block);
        Ok(out)
    }

    /// The values that this function returned, read from the bytes that came back.
    pub fn decode_result(&self, data: &[u8]) -> (r: Result<Vec<AbiValue>, DecodingError>)
        ensures
            match r {
                Ok(vals) => decoded(self@.outputs, data@) == Ok::<Seq<AbiModel>, DecodingError>(
                    models(vals@),
                ),
                Err(e) => decoded(self@.outputs, data@) == Err::<Seq<AbiModel>, DecodingError>(e),
            },
    {
        decode_values(self.outputs.as_slice(), data)
    }
}

/// Whether a function of that name is among `fs`.
pub open spec fn declares(fs: Seq<FunctionModel>, name: Seq<char>) -> bool {
    exists|i: int| 0 <= i < fs.len() && (#[trigger] fs[i]).name == name
}

/// The function of that name among `fs`.
pub open spec fn declared(fs: Seq<FunctionModel>, name: Seq<char>) -> FunctionModel {
    fs[choose|i: int| 0 <= i < fs.len() && (#[trigger] fs[i]).name == name]
}

/// What encoding a call gives: the call's bytes, or why there are none.
pub open spec fn encoded_call(fs: Seq<FunctionModel>, name: Seq<char>, args: Seq<AbiModel>) -> Result<
    Seq<u8>,
    EncodingError,
> {
    if !declares(fs, name) {
        Err(EncodingError::UnknownFunction)
    } else if declared(fs, name).inputs.len() != args.len() {
        Err(EncodingError::ArityMismatch)
    } else if !all_fit(declared(fs, name).inputs, args) {
        Err(EncodingError::TypeMismatch)
    } else if call_bytes(declared(fs, name), args).len() > usize::MAX {
        Err(EncodingError::TooLarge)
    } else {
        Ok(call_bytes(declared(fs, name), args))
    }
}

/// What decoding a result gives: the values, or why there are none.
pub open spec fn decoded_result(fs: Seq<FunctionModel>, name: Seq<char>, data: Seq<u8>) -> Result<
    Seq<AbiModel>,
    DecodingError,
> {
    if !declares(fs, name) {
        Err(DecodingError::UnknownFunction)
    } else {
        decoded(declared(fs, name).outputs, data)
    }
}

/// Why a function could not be added to an interface.
#[derive(Clone, Copy, Debug, PartialEq, Eq, Structural)]
pub enum InterfaceError {
    /// The interface has a function of that name already.
    DuplicateName,
}

/// The functions of a contract, each under a name of its own.
#[derive(Debug)]
pub struct ContractInterface {
    functions: Vec<Function>,
}

impl View for ContractInterface {
    type V = Seq<FunctionModel>;

    closed spec fn view(&self) -> Seq<FunctionModel> {
        self.functions@.map_values(|f: Function| f@)
    }
}

impl ContractInterface {
    #[verifier::type_invariant]
    spec fn names_differ(self) -> bool {
        forall|i: int, j: int|
            0 <= i < j < self.functions@.len() ==> (#[trigger] self.functions@[i])@.name != (
            #[trigger] self.functions@[j])@.name
    }

    /// An interface without functions.
    pub fn new() -> (r: ContractInterface)
        ensures
            r@ == Seq::<FunctionModel>::empty(),
    {
        let r = ContractInterface { functions: Vec::new() };
        assert(r@ =~= Seq::<FunctionModel>::empty());
        r
    }

    /// How many functions the interface has.
    pub fn len(&self) -> (r: usize)
        ensures
            r == self@.len(),
    {
        self.functions.len()
    }

    /// The place of the function of that name.
    fn position(&self, name: &str) -> (r: Option<usize>)
        ensures
            match r {
                Some(i) => i < self@.len() && declares(self@, name@) && self@[i as int]
                    == declared(self@, name@) && self@[i as int] == self.functions@[i as int]@,
                None => !declares(self@, name@),
            },
    {
        let n: usize = self.functions.len();
        let mut i: usize = 0;
        while i < n
            invariant
                i <= n,
                n == self.functions@.len(),
                forall|j: int| 0 <= j < i ==> (#[trigger] self@[j]).name != name@,
            decreases n - i,
        {
            if same_text(self.functions[i].name(), name) {
                proof {
                    use_type_invariant(self);
                    let fs = self@;
                    assert(fs[i as int].name == name@);
                    let c = choose|c: int| 0 <= c < fs.len() && (#[trigger] fs[c]).name == name@;
                    assert(self.functions@[c]@.name == self.functions@[i as int]@.name);
                    assert(c == i);
                }
                return Some(i);
            }
            i += 1;
        }
        None
    }

    /// The function of that name, if the interface has one.
    pub fn find(&self, name: &str) -> (r: Option<&Function>)
        ensures
            match r {
                Some(f) => declares(self@, name@) && f@ == declared(self@, name@),
                None => !declares(self@, name@),
            },
    {
        match self.position(name) {
            Some(i) => Some(&self.functions[i]),
            None => None,
        }
    }

    /// Adds a function, unless the interface has one of that name.
    pub fn add(&mut self, f: Function) -> (r: Result<(), InterfaceError>)
        ensures
            match r {
                Ok(_) => !declares(old(self)@, f@.name) && final(self)@ == old(self)@.push(f@),
                Err(_) => declares(old(self)@, f@.name) && final(self)@ == old(self)@,
            },
    {
        if self.position(f.name()).is_some() {
            return Err(InterfaceError::DuplicateName);
        }
        proof {
            use_type_invariant(&*self);
        }
        let ghost before = self.functions@;
        let ghost model = f@;
        assert forall|i: int| 0 <= i < before.len() implies (#[trigger] before[i])@.name
            != model.name by {
            assert(self@[i] == before[i]@);
        }
        let mut functions: Vec<Function> = Vec::new();
        core::mem::swap(&mut self.functions, &mut functions);
        functions.push(f);
        core::mem::swap(&mut self.functions, &mut functions);
        assert(self@ =~= old(self)@.push(model));
        Ok(())
    }

    /// Encodes a call of the function of that name: its selector, then the
    /// block of the arguments.
    ///
    /// The call is refused where the interface has no such function, where
    /// the arguments are not as many as its parameters, where one lies
    /// outside its parameter's type, and where the bytes would not fit in
    /// memory.
    pub fn encode_call(&self, name: &str, args: &[AbiValue]) -> (r: Result<Vec<u8>, EncodingError>)
        ensures
            match r {
                Ok(bytes) => encoded_call(self@, name@, models(args@)) == Ok::<
                    Seq<u8>,
                    EncodingError,
                >(bytes@),
                Err(e) => encoded_call(self@, name@, models(args@)) == Err::<
                    Seq<u8>,
                    EncodingError,
                >(e),
            },
    {
        match self.find(name) {
            Some(f) => {
                match f.encode_call(args) {
                    Ok(bytes) => {
                        assert(bytes@.len() == bytes.len());
                        Ok(bytes)
                    },
                    Err(e) => Err(e),
                }
            },
            None => Err(EncodingError::UnknownFunction),
        }
    }

    /// Decodes what the function of that name returned.
    ///
    /// The bytes are refused where the interface has no such function, and
    /// where they do not hold values of its return types.
    pub fn decode_result(&self, name: &str, data: &[u8]) -> (r: Result<Vec<AbiValue>, DecodingError>)
        ensures
            match r {
                Ok(vals) => decoded_result(self@, name@, data@) == Ok::<
                    Seq<AbiModel>,
                    DecodingError,
                >(models(vals@)),
                Err(e) => decoded_result(self@, name@, data@) == Err::<
                    Seq<AbiModel>,
                    DecodingError,
                >(e),
            },
    {
        match self.find(name) {
            Some(f) => f.decode_result(data),
            None => Err(DecodingError::UnknownFunction),
        }
    }
}

/// The arguments of a call are read back from the call's bytes behind the
/// selector, where the function returns what it takes: decoding with the
/// parameter types as return types inverts encoding.
pub proof fn lemma_call_round_trip(fs: Seq<FunctionModel>, name: Seq<char>, args: Seq<AbiModel>)
    requires
        declares(fs, name),
        declared(fs, name).outputs == declared(fs, name).inputs,
        encoded_call(fs, name, args) is Ok,
    ensures
        decoded_result(fs, name, encoded_call(fs, name, args)->Ok_0.skip(4)) == Ok::<
            Seq<AbiModel>,
            DecodingError,
        >(args),
{
    let f = declared(fs, name);
    assert(call_bytes(f, args).skip(4) =~= encoded(args));
    lemma_decode_inverts_encode(f.inputs, args);
}

} // verus!
