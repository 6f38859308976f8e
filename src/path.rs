//! Merkle paths of the utreexo forest: the neighbors from an item up to its
//! root, and the left/right directions that the item's position spells out.

use vstd::prelude::*;
use vstd::arithmetic::power2::{lemma2_to64, lemma2_to64_rest, lemma_pow2_strictly_increases, pow2};
use vstd::bits::lemma_u64_shr_is_div;
use crate::encoding::{le32, le64, write_u32_le};

verus! {

/// Absolute position of an item in the forest.
pub type Position = u64;

/// Merkle proof of inclusion of an item in the forest, for one generation.
#[derive(Clone, Debug)]
pub struct Proof {
    /// Generation of the forest to which the proof applies.
    pub generation: u64,
    /// Merkle path to the item.
    pub path: Path,
}

/// Merkle path to an item: its position and its neighbors, lowest first.
#[derive(Clone, Debug)]
pub struct Path {
    pub position: Position,
    pub neighbors: Vec<[u8; 32]>,
}

/// The side on which a node stands next to its neighbor.
#[derive(Copy, Clone, PartialEq, Eq, Debug, Structural)]
pub enum Side {
    Left,
    Right,
}

/// The side that a bit of the position names: `0` is left.
pub open spec fn side_of_bit(bit: nat) -> Side {
    if bit == 0 {
        Side::Left
    } else {
        Side::Right
    }
}

/// The bit of `position` at index `k`.
pub open spec fn position_bit(position: u64, k: nat) -> nat {
    (position as nat / pow2(k)) % 2
}

impl Side {
    /// Orders a (node, neighbor) pair as (left, right) per the node's side.
    pub fn order<T>(self, node: T, neighbor: T) -> (r: (T, T))
        ensures
            r == (match self {
                Side::Left => (node, neighbor),
                Side::Right => (neighbor, node),
            }),
    {
        match self {
            Side::Left => (node, neighbor),
            Side::Right => (neighbor, node),
        }
    }

    /// Returns the (node, neighbor) pair from (left, right), undoing `order`.
    pub fn choose_pair<T>(self, left: T, right: T) -> (r: (T, T))
        ensures
            r == (match self {
                Side::Left => (left, right),
                Side::Right => (right, left),
            }),
    {
        match self {
            Side::Left => (left, right),
            Side::Right => (right, left),
        }
    }

    /// The side that a position bit names.
    pub fn from_bit(bit: u8) -> (r: Side)
        ensures
            r == side_of_bit(bit as nat),
    {
        match bit {
            0 => Side::Left,
            _ => Side::Right,
        }
    }
}

/// The left/right directions of a path, lowest first, as the bits of its position.
#[derive(Copy, Clone, PartialEq, Eq, Debug, Structural)]
pub struct Directions {
    pub position: Position,
    pub depth: usize,
}

impl Directions {
    /// The number of directions left.
    pub fn len(&self) -> (r: usize)
        ensures
            r == self.depth,
    {
        self.depth
    }

    /// The lowest direction, which it removes; `None` when none is left.
    pub fn next(&mut self) -> (r: Option<Side>)
        ensures
            old(self).depth == 0 ==> r is None && *final(self) == *old(self),
            old(self).depth > 0 ==> r == Some(side_of_bit(position_bit(old(self).position, 0)))
                && final(self).position == old(self).position / 2 && final(self).depth
                == old(self).depth - 1,
    {
        if self.depth == 0 {
            return None;
        }
        let p = self.position;
        let bit = p & 1;
        proof {
            assert(p & 1 == p % 2) by (bit_vector);
            lemma2_to64();
        }
        let side = Side::from_bit(bit as u8);
        // kick out the lowest bit and shrink the depth
        self.position = p >> 1;
        proof {
            assert(p >> 1 == p / 2) by (bit_vector);
        }
        self.depth = self.depth - 1;
        Some(side)
    }

    /// The highest direction, which it removes; `None` when none is left.
    pub fn next_back(&mut self) -> (r: Option<Side>)
        ensures
            old(self).depth == 0 ==> r is None && *final(self) == *old(self),
            old(self).depth > 0 ==> r == Some(
                side_of_bit(position_bit(old(self).position, (old(self).depth - 1) as nat)),
            ) && final(self).position == old(self).position && final(self).depth == old(
                self,
            ).depth - 1,
    {
        if self.depth == 0 {
            return None;
        }
        self.depth = self.depth - 1;
        // The bit at `depth` is not masked out of `position`: lowering the depth
        // leaves it out of reach.
        let p = self.position;
        let d = self.depth;
        let shifted: u64 = if d < 64 {
            p >> (d as u64)
        } else {
            0
        };
        proof {
            if d < 64 {
                lemma_u64_shr_is_div(p, d as u64);
            } else {
                lemma2_to64_rest();
                if d > 64 {
                    lemma_pow2_strictly_increases(64, d as nat);
                }
                assert(p as nat / pow2(d as nat) == 0) by (nonlinear_arith)
                    requires
                        p as nat <= 0xffff_ffff_ffff_ffff,
                        pow2(d as nat) >= 0x1_0000_0000_0000_0000,
                ;
            }
        }
        let bit = shifted & 1;
        proof {
            assert(shifted & 1 == shifted % 2) by (bit_vector);
        }
        Some(Side::from_bit(bit as u8))
    }
}

/// The bytes of the neighbors from index `i` on, 32 each.
pub open spec fn neighbors_bytes_from(ns: Seq<[u8; 32]>, i: int) -> Seq<u8>
    decreases ns.len() - i,
{
    if 0 <= i < ns.len() {
        ns[i]@ + neighbors_bytes_from(ns, i + 1)
    } else {
        Seq::empty()
    }
}

/// The encoding of a path: its position in eight bytes, the number of its
/// neighbors in four, then each neighbor's 32 bytes.
pub open spec fn path_bytes(p: Path) -> Seq<u8> {
    le64(p.position) + le32(p.neighbors@.len() as nat) + neighbors_bytes_from(p.neighbors@, 0)
}

/// The encoding of a proof: its generation in eight bytes, then its path.
pub open spec fn proof_bytes(p: Proof) -> Seq<u8> {
    le64(p.generation) + path_bytes(p.path)
}

/// Appends a `u64` as eight little-endian bytes.
pub fn write_u64_le(n: u64, buf: &mut Vec<u8>)
    ensures
        final(buf)@ == old(buf)@ + le64(n),
{
    write_u32_le((n % 0x1_0000_0000) as usize, buf);
    write_u32_le((n / 0x1_0000_0000) as usize, buf);
    proof {
        assert(old(buf)@ + le32((n as nat) % 0x1_0000_0000) + le32((n as nat) / 0x1_0000_0000)
            =~= old(buf)@ + le64(n));
    }
}

/// Appends the 32 bytes of a hash.
fn write_hash(hash: &[u8; 32], buf: &mut Vec<u8>)
    ensures
        final(buf)@ == old(buf)@ + hash@,
{
    let ghost start = buf@;
    let mut i: usize = 0;
    while i < 32
        invariant
            i <= 32,
            hash@.len() == 32,
            buf@ == start + hash@.subrange(0, i as int),
        decreases 32 - i,
    {
        buf.push(hash[i]);
        i = i + 1;
        proof {
            assert(hash@.subrange(0, i as int) =~= hash@.subrange(0, i - 1).push(hash@[i - 1]));
        }
    }
    proof {
        assert(hash@.subrange(0, 32) =~= hash@);
    }
}

impl Path {
    /// The directions from the item up to the root.
    pub fn directions(&self) -> (r: Directions)
        ensures
            r.position == self.position,
            r.depth == self.neighbors@.len(),
    {
        Directions { position: self.position, depth: self.neighbors.len() }
    }

    /// Encodes the path.
    pub fn encode(&self, buf: &mut Vec<u8>)
        ensures
            final(buf)@ == old(buf)@ + path_bytes(*self),
    {
        let ghost start = buf@;
        write_u64_le(self.position, buf);
        write_u32_le(self.neighbors.len(), buf);
        let ghost head = buf@;
        let mut i: usize = 0;
        while i < self.neighbors.len()
            invariant
                i <= self.neighbors@.len(),
                buf@ + neighbors_bytes_from(self.neighbors@, i as int) == head
                    + neighbors_bytes_from(self.neighbors@, 0),
            decreases self.neighbors.len() - i,
        {
            let ghost before = buf@;
            write_hash(&self.neighbors[i], buf);
            proof {
                let h = self.neighbors@[i as int]@;
                let rest = neighbors_bytes_from(self.neighbors@, i + 1);
                assert(before + (h + rest) =~= (before + h) + rest);
            }
            i = i + 1;
        }
        proof {
            assert(buf@ + neighbors_bytes_from(self.neighbors@, i as int) =~= buf@);
            assert(head + neighbors_bytes_from(self.neighbors@, 0) =~= start + path_bytes(*self));
        }
    }

    /// The length of the path's encoding.
    pub fn serialized_length(&self) -> (r: usize)
        requires
            12 + 32 * self.neighbors@.len() <= usize::MAX,
        ensures
            r == 12 + 32 * self.neighbors@.len(),
    {
        8 + 4 + 32 * self.neighbors.len()
    }
}

impl Proof {
    /// Encodes the proof.
    pub fn encode(&self, buf: &mut Vec<u8>)
        ensures
            final(buf)@ == old(buf)@ + proof_bytes(*self),
    {
        write_u64_le(self.generation, buf);
        self.path.encode(buf);
        proof {
            assert(old(buf)@ + le64(self.generation) + path_bytes(self.path) =~= old(buf)@
                + proof_bytes(*self));
        }
    }
}

} // verus!
