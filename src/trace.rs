//! Nested execution traces, as the virtual machine records them.
use vstd::prelude::*;
use vstd::arithmetic::power::{pow, lemma_pow_positive};
use vstd::arithmetic::div_mod::lemma_div_denominator;

verus! {

/// A 256-bit unsigned integer, as four little-endian 64-bit limbs.
pub struct U256 {
    pub limbs: [u64; 4],
}

impl U256 {
    /// The integer that the limbs stand for.
    pub open spec fn value(&self) -> nat {
        self.limbs@[0] as nat + self.limbs@[1] as nat * 0x1_0000_0000_0000_0000
            + self.limbs@[2] as nat * 0x1_0000_0000_0000_0000 * 0x1_0000_0000_0000_0000
            + self.limbs@[3] as nat * 0x1_0000_0000_0000_0000 * 0x1_0000_0000_0000_0000
            * 0x1_0000_0000_0000_0000
    }

    pub fn from_u64(v: u64) -> (r: U256)
        ensures
            r.value() == v,
            r.limbs@ == seq![v, 0u64, 0u64, 0u64],
    {
        let r = U256 { limbs: [v, 0, 0, 0] };
        assert(r.limbs@ =~= seq![v, 0u64, 0u64, 0u64]);
        r
    }
}

/// A 160-bit account address, as 20 big-endian bytes.
pub struct Address {
    pub bytes: [u8; 20],
}

/// The `k`-th byte of `v`, counting from the least significant one.
pub open spec fn byte_of(v: u64, k: nat) -> u8 {
    ((v as int / pow(256, k)) % 256) as u8
}

impl Address {
    /// The address whose low 64 bits are `v`, the rest zero.
    pub fn from_u64(v: u64) -> (r: Address)
        ensures
            forall|i: int| 0 <= i < 12 ==> r.bytes@[i] == 0,
            forall|k: nat| k < 8 ==> #[trigger] r.bytes@[19 - k] == byte_of(v, k),
    {
        let mut bytes: [u8; 20] = [0; 20];
        let mut x: u64 = v;
        let mut k: usize = 0;
        proof {
            reveal(pow);
        }
        while k < 8
            invariant
                k <= 8,
                x as int == v as int / pow(256, k as nat),
                forall|i: int| 0 <= i < 20 - k ==> bytes@[i] == 0,
                forall|j: nat| j < k ==> #[trigger] bytes@[19 - j] == byte_of(v, j),
            decreases 8 - k,
        {
            bytes[19 - k] = (x % 256) as u8;
            proof {
                reveal(pow);
                lemma_pow_positive(256, k as nat);
                lemma_div_denominator(v as int, pow(256, k as nat), 256);
                assert(pow(256, (k + 1) as nat) == 256 * pow(256, k as nat));
            }
            x = x / 256;
            k = k + 1;
        }
        Address { bytes }
    }
}

/// Payload of a message call.
pub struct Call {
    pub from: Address,
    pub to: Address,
    pub value: U256,
    pub gas: U256,
    pub input: Vec<u8>,
}

/// Payload of a contract creation.
pub struct Create {
    pub from: Address,
    pub value: U256,
    pub gas: U256,
    pub init: Vec<u8>,
}

/// What a traced operation did.
pub enum Action {
    Call(Call),
    Create(Create),
}

/// Outcome of a successful call.
pub struct CallResult {
    pub gas_used: U256,
    pub output: Vec<u8>,
}

/// Outcome of a successful creation.
pub struct CreateResult {
    pub gas_used: U256,
    pub code: Vec<u8>,
    pub address: Address,
}

/// How a traced operation ended.
pub enum Res {
    Call(CallResult),
    Create(CreateResult),
    FailedCall,
    FailedCreate,
    Empty,
}

/// One traced operation and the operations it started, in execution order.
pub struct Trace {
    pub depth: usize,
    pub action: Action,
    pub result: Res,
    pub subs: Vec<Trace>,
}

/// Number of nodes in the tree rooted at `t`.
pub open spec fn tree_size(t: Trace) -> nat
    decreases t, 1nat, 0nat,
{
    1 + subs_size(t, t.subs@.len())
}

/// Number of nodes in the first `k` child subtrees of `t`.
pub open spec fn subs_size(t: Trace, k: nat) -> nat
    decreases t, 0nat, k,
{
    if k == 0 || k > t.subs@.len() {
        0
    } else {
        subs_size(t, (k - 1) as nat) + tree_size(t.subs@[k - 1])
    }
}

/// The traces of all transactions of one block, in transaction order.
pub struct BlockTraces(pub Vec<Trace>);

impl BlockTraces {
    pub fn from(traces: Vec<Trace>) -> (r: BlockTraces)
        ensures
            r.0@ == traces@,
    {
        BlockTraces(traces)
    }

    pub fn into(self) -> (r: Vec<Trace>)
        ensures
            r@ == self.0@,
    {
        self.0
    }
}

} // verus!
