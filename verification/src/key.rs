//! The ordered key that identifies a record.

use vstd::prelude::*;

verus! {

/// A twelve-byte record identifier, ordered as its bytes are when read as
/// one big-endian number. The first four bytes are held in `hi`, the other
/// eight in `lo`.
#[derive(Clone, Copy, Debug, PartialEq, Eq, Structural)]
pub struct OrderedKey {
    pub hi: u32,
    pub lo: u64,
}

/// The number that twelve bytes stand for, most significant byte first.
pub open spec fn be_value(bytes: Seq<u8>) -> int
    decreases bytes.len(),
{
    if bytes.len() == 0 {
        0
    } else {
        be_value(bytes.drop_last()) * 256 + bytes.last() as int
    }
}

impl OrderedKey {
    /// The key's place in the order: a number below 2^96.
    pub open spec fn rank(self) -> int {
        self.hi as int * 0x1_0000_0000_0000_0000 + self.lo as int
    }

    /// Strict order on keys.
    pub open spec fn lt(self, other: OrderedKey) -> bool {
        self.rank() < other.rank()
    }

    /// The key below every key that a record can carry: twelve zero bytes.
    pub open spec fn min_spec() -> OrderedKey {
        OrderedKey { hi: 0, lo: 0 }
    }

    /// The sentinel from which a migration starts when nothing was
    /// migrated yet.
    pub fn min() -> (key: OrderedKey)
        ensures
            key == Self::min_spec(),
            key.rank() == 0,
    {
        OrderedKey { hi: 0, lo: 0 }
    }

    /// Whether `self` comes strictly before `other`.
    pub fn is_before(&self, other: &OrderedKey) -> (r: bool)
        ensures
            r == self.lt(*other),
    {
        self.hi < other.hi || (self.hi == other.hi && self.lo < other.lo)
    }

    /// The key's twelve bytes, most significant first.
    pub fn to_bytes(&self) -> (bytes: [u8; 12])
        ensures
            be_value(bytes@) == self.rank(),
    {
        let hi: u32 = self.hi;
        let lo: u64 = self.lo;
        let bytes: [u8; 12] = [
            (hi / 0x100_0000) as u8,
            (hi / 0x1_0000 % 256) as u8,
            (hi / 0x100 % 256) as u8,
            (hi % 256) as u8,
            (lo / 0x100_0000_0000_0000) as u8,
            (lo / 0x1_0000_0000_0000 % 256) as u8,
            (lo / 0x100_0000_0000 % 256) as u8,
            (lo / 0x1_0000_0000 % 256) as u8,
            (lo / 0x100_0000 % 256) as u8,
            (lo / 0x1_0000 % 256) as u8,
            (lo / 0x100 % 256) as u8,
            (lo % 256) as u8,
        ];
        proof {
            assert(hi == (hi / 0x100_0000) * 0x100_0000 + (hi / 0x1_0000 % 256) * 0x1_0000 + (hi
                / 0x100 % 256) * 0x100 + hi % 256) by (bit_vector);
            assert(lo == (lo / 0x100_0000_0000_0000) * 0x100_0000_0000_0000 + (lo
                / 0x1_0000_0000_0000 % 256) * 0x1_0000_0000_0000 + (lo / 0x100_0000_0000 % 256)
                * 0x100_0000_0000 + (lo / 0x1_0000_0000 % 256) * 0x1_0000_0000 + (lo / 0x100_0000
                % 256) * 0x100_0000 + (lo / 0x1_0000 % 256) * 0x1_0000 + (lo / 0x100 % 256) * 0x100
                + lo % 256) by (bit_vector);
            assert(hi / 0x100_0000 < 256) by (bit_vector);
            assert(lo / 0x100_0000_0000_0000 < 256) by (bit_vector);
            lemma_be_value_12(bytes@);
        }
        bytes
    }

    /// Reads a key from its twelve bytes, most significant first.
    pub fn from_bytes(bytes: [u8; 12]) -> (key: OrderedKey)
        ensures
            key.rank() == be_value(bytes@),
    {
        let mut hi: u32 = 0;
        let mut i: usize = 0;
        while i < 4
            invariant
                i <= 4,
                hi as int == be_value(bytes@.take(i as int)),
                (hi as int) < pow256(i as nat),
            decreases 4 - i,
        {
            proof {
                lemma_take_step(bytes@, i as int);
                reveal_with_fuel(pow256, 13);
            }
            hi = hi * 256 + bytes[i] as u32;
            i = i + 1;
        }
        let mut lo: u64 = 0;
        proof {
            assert(i == 4);
            assert(hi as int * pow256(0) == hi as int) by (nonlinear_arith)
                requires
                    pow256(0) == 1,
            ;
        }
        while i < 12
            invariant
                4 <= i <= 12,
                hi as int == be_value(bytes@.take(4)),
                hi as int * pow256((i - 4) as nat) + lo as int == be_value(bytes@.take(i as int)),
                (lo as int) < pow256((i - 4) as nat),
            decreases 12 - i,
        {
            proof {
                lemma_take_step(bytes@, i as int);
                reveal_with_fuel(pow256, 13);
                assert(hi as int * pow256((i + 1 - 4) as nat) == hi as int * pow256((i - 4) as nat)
                    * 256) by (nonlinear_arith)
                    requires
                        pow256((i + 1 - 4) as nat) == pow256((i - 4) as nat) * 256,
                ;
            }
            lo = lo * 256 + bytes[i] as u64;
            i = i + 1;
        }
        proof {
            reveal_with_fuel(pow256, 13);
            assert(bytes@.take(12) =~= bytes@);
        }
        OrderedKey { hi, lo }
    }
}

/// Keys of one rank are one key: with `from_bytes` and `to_bytes`, a key
/// read back from its own bytes is the key itself.
pub proof fn law_rank_is_key(a: OrderedKey, b: OrderedKey)
    requires
        a.rank() == b.rank(),
    ensures
        a == b,
{
}

/// Byte sequences of one length and one value are the same bytes: a key
/// has one sequence of twelve bytes, and `to_bytes` gives it.
pub proof fn law_value_is_bytes(a: Seq<u8>, b: Seq<u8>)
    requires
        a.len() == b.len(),
        be_value(a) == be_value(b),
    ensures
        a == b,
    decreases a.len(),
{
    if a.len() > 0 {
        let x = be_value(a.drop_last());
        let y = be_value(b.drop_last());
        let p = a.last() as int;
        let q = b.last() as int;
        assert(x * 256 + p == y * 256 + q);
        assert(x == y && p == q);
        law_value_is_bytes(a.drop_last(), b.drop_last());
        assert(a =~= a.drop_last().push(a.last()));
        assert(b =~= b.drop_last().push(b.last()));
    } else {
        assert(a =~= b);
    }
}

/// 256 to the power `n`.
pub open spec fn pow256(n: nat) -> int
    decreases n,
{
    if n == 0 {
        1
    } else {
        pow256((n - 1) as nat) * 256
    }
}

/// The value of twelve bytes, written out.
proof fn lemma_be_value_12(s: Seq<u8>)
    requires
        s.len() == 12,
    ensures
        be_value(s) == (s[0] * 0x100_0000 + s[1] * 0x1_0000 + s[2] * 0x100 + s[3])
            * 0x1_0000_0000_0000_0000 + s[4] * 0x100_0000_0000_0000 + s[5] * 0x1_0000_0000_0000
            + s[6] * 0x100_0000_0000 + s[7] * 0x1_0000_0000 + s[8] * 0x100_0000 + s[9] * 0x1_0000
            + s[10] * 0x100 + s[11],
{
    assert(be_value(s.take(0)) == 0);
    lemma_take_step(s, 0);
    lemma_take_step(s, 1);
    lemma_take_step(s, 2);
    lemma_take_step(s, 3);
    lemma_take_step(s, 4);
    lemma_take_step(s, 5);
    lemma_take_step(s, 6);
    lemma_take_step(s, 7);
    lemma_take_step(s, 8);
    lemma_take_step(s, 9);
    lemma_take_step(s, 10);
    lemma_take_step(s, 11);
    assert(s.take(12) =~= s);
}

/// Reading one byte more multiplies what was read by 256 and adds the byte.
proof fn lemma_take_step(bytes: Seq<u8>, i: int)
    requires
        0 <= i < bytes.len(),
    ensures
        be_value(bytes.take(i + 1)) == be_value(bytes.take(i)) * 256 + bytes[i] as int,
{
    assert(bytes.take(i + 1).drop_last() =~= bytes.take(i));
}

} // verus!
