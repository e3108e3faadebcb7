//! An upstream endpoint: an address plus a relative traffic weight.
use vstd::prelude::*;
use vstd::string::StrSliceExecFns;

verus! {

/// The weight given to a backend when none is chosen explicitly.
pub const DEFAULT_WEIGHT: u16 = 100;

/// The offset basis of the 64-bit FNV-1a hash.
pub const FNV_OFFSET: u64 = 0xcbf29ce484222325;

/// The prime of the 64-bit FNV-1a hash.
pub const FNV_PRIME: u64 = 0x100000001b3;

/// One upstream endpoint, identified by its address, carrying a relative
/// traffic weight. Immutable once constructed.
pub struct Backend {
    pub addr: String,
    pub weight: u16,
}

/// The mathematical value of a [`Backend`]: its address characters and weight.
pub ghost struct BackendModel {
    pub addr: Seq<char>,
    pub weight: u16,
}

impl View for Backend {
    type V = BackendModel;

    open spec fn view(&self) -> BackendModel {
        BackendModel { addr: self.addr@, weight: self.weight }
    }
}

impl Clone for Backend {
    fn clone(&self) -> (r: Self)
        ensures
            r == *self,
    {
        Backend { addr: self.addr.clone(), weight: self.weight }
    }
}

impl Backend {
    /// A backend at `addr` with the default weight.
    pub fn new(addr: String) -> (r: Self)
        ensures
            r.addr@ == addr@,
            r.weight == DEFAULT_WEIGHT,
    {
        Backend { addr, weight: DEFAULT_WEIGHT }
    }

    /// The same backend with its weight replaced.
    pub fn with_weight(self, weight: u16) -> (r: Self)
        ensures
            r.addr@ == self.addr@,
            r.weight == weight,
    {
        Backend { addr: self.addr, weight }
    }

    /// A stable identity for this backend, derived from its address and
    /// weight alone.
    pub fn hash_key(&self) -> (r: u64)
        ensures
            r == spec_hash_key(self@),
    {
        let s = self.addr.as_str();
        let n = s.unicode_len();
        let mut acc: u64 = FNV_OFFSET;
        let mut i: usize = 0;
        proof {
            assert(s@.skip(0) =~= s@);
        }
        while i < n
            invariant
                i <= n,
                n == s@.len(),
                s@ == self.addr@,
                spec_fnv1a_chars(self.addr@, FNV_OFFSET) == spec_fnv1a_chars(
                    s@.skip(i as int),
                    acc,
                ),
            decreases n - i,
        {
            let c = s.get_char(i);
            proof {
                assert(s@.skip(i as int).first() == s@[i as int]);
                assert(s@.skip(i as int).drop_first() =~= s@.skip(i as int + 1));
            }
            acc = (acc ^ (c as u64)).wrapping_mul(FNV_PRIME);
            i = i + 1;
        }
        proof {
            assert(s@.skip(n as int) =~= Seq::<char>::empty());
        }
        (acc ^ (self.weight as u64)).wrapping_mul(FNV_PRIME)
    }
}

impl PartialEq for Backend {
    /// Two backends are equal when their addresses and weights are.
    fn eq(&self, other: &Self) -> (r: bool) {
        self.addr == other.addr && self.weight == other.weight
    }
}

impl vstd::std_specs::cmp::PartialEqSpecImpl for Backend {
    open spec fn obeys_eq_spec() -> bool {
        true
    }

    open spec fn eq_spec(&self, other: &Self) -> bool {
        self@ == other@
    }
}

/// One FNV-1a mixing step: fold one value into the accumulator.
pub open spec fn spec_fnv1a_step(acc: u64, v: u64) -> u64 {
    (((acc ^ v) as nat * FNV_PRIME as nat) % 0x10000000000000000nat) as u64
}

/// The FNV-1a accumulator after folding in each character in turn.
pub open spec fn spec_fnv1a_chars(cs: Seq<char>, acc: u64) -> u64
    decreases cs.len(),
{
    if cs.len() == 0 {
        acc
    } else {
        spec_fnv1a_chars(cs.drop_first(), spec_fnv1a_step(acc, cs.first() as u64))
    }
}

/// The identity hash of a backend: FNV-1a over its address characters, with
/// the weight folded in last.
pub open spec fn spec_hash_key(m: BackendModel) -> u64 {
    spec_fnv1a_step(spec_fnv1a_chars(m.addr, FNV_OFFSET), m.weight as u64)
}

} // verus!
