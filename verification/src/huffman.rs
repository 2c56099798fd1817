//! The Huffman tree shared by a compressed string column, and the decoder that walks it.
use vstd::prelude::*;

verus! {

/// A Huffman tree stored as nodes of 4 bytes: `child0, leaf0, child1, leaf1`.
/// A child index of 0 means the branch ends in the leaf byte beside it.
pub struct HuffmanTree {
    pub child: Vec<[u8; 2]>,
    pub leaf: Vec<[u8; 2]>,
}

/// Bit `q` of `buf`, counting from the most significant bit of each byte.
pub open spec fn msb_bit(buf: Seq<u8>, q: int) -> u8 {
    (buf[q / 8] >> ((7 - q % 8) as u8)) & 1u8
}

/// The bytes decoded from bit position `q` on, when the walk stands at `node` and has
/// already produced `out`: one bit per step, until `out_len` bytes are out or the bits
/// of `buf` run out. A child index past the last node sends the walk back to the root.
pub open spec fn decode_walk(
    child: Seq<[u8; 2]>,
    leaf: Seq<[u8; 2]>,
    buf: Seq<u8>,
    q: int,
    node: int,
    out: Seq<u8>,
    out_len: nat,
) -> Seq<u8>
    decreases 8 * buf.len() - q,
{
    if out.len() >= out_len || q < 0 || q >= 8 * buf.len() {
        out
    } else {
        let bit = msb_bit(buf, q) as int;
        let next = child[node][bit];
        if next == 0 {
            decode_walk(child, leaf, buf, q + 1, 0, out.push(leaf[node][bit]), out_len)
        } else {
            let n = if (next as int) < child.len() {
                next as int
            } else {
                0
            };
            decode_walk(child, leaf, buf, q + 1, n, out, out_len)
        }
    }
}

/// What `HuffmanTree::decode` gives: the raw bytes (clamped to the buffer) when the tree
/// is empty, otherwise the walk from the root at the first bit of byte `start`.
pub open spec fn spec_decode(
    child: Seq<[u8; 2]>,
    leaf: Seq<[u8; 2]>,
    buf: Seq<u8>,
    start: int,
    out_len: nat,
) -> Seq<u8> {
    if child.len() == 0 {
        let s = if start < buf.len() {
            start
        } else {
            buf.len() as int
        };
        let e = if start + out_len < buf.len() {
            start + out_len
        } else {
            buf.len() as int
        };
        buf.subrange(s, e)
    } else {
        decode_walk(child, leaf, buf, 8 * start, 0, Seq::empty(), out_len)
    }
}

/// How many nodes `load` reads: `n_nodes`, capped by the bytes after `start`.
pub open spec fn spec_node_count(len: int, start: int, n_nodes: int) -> int {
    if start <= len && n_nodes <= (len - start) / 4 {
        n_nodes
    } else if start <= len {
        (len - start) / 4
    } else {
        0
    }
}

/// The child pairs of the first `n` nodes stored at `start`.
pub open spec fn spec_tree_child(buf: Seq<u8>, start: int, n: int) -> Seq<[u8; 2]> {
    Seq::new(n as nat, |i: int| [buf[start + 4 * i], buf[start + 4 * i + 2]])
}

/// The leaf pairs of the first `n` nodes stored at `start`.
pub open spec fn spec_tree_leaf(buf: Seq<u8>, start: int, n: int) -> Seq<[u8; 2]> {
    Seq::new(n as nat, |i: int| [buf[start + 4 * i + 1], buf[start + 4 * i + 3]])
}

impl HuffmanTree {
    /// The tree is usable: one leaf pair per node.
    pub open spec fn wf(&self) -> bool {
        self.child@.len() == self.leaf@.len()
    }

    /// Reads `n_nodes` nodes of 4 bytes at `start`, or as many as the buffer holds.
    pub fn load(buf: &[u8], start: usize, n_nodes: usize) -> (tree: Self)
        ensures
            tree.wf(),
            tree.child@ == spec_tree_child(
                buf@,
                start as int,
                spec_node_count(buf@.len() as int, start as int, n_nodes as int),
            ),
            tree.leaf@ == spec_tree_leaf(
                buf@,
                start as int,
                spec_node_count(buf@.len() as int, start as int, n_nodes as int),
            ),
    {
        let max_nodes = buf.len().saturating_sub(start) / 4;
        let n = if n_nodes < max_nodes {
            n_nodes
        } else {
            max_nodes
        };
        let mut child: Vec<[u8; 2]> = Vec::with_capacity(n);
        let mut leaf: Vec<[u8; 2]> = Vec::with_capacity(n);
        let mut i: usize = 0;
        let _blen = buf.len();
        while i < n
            invariant
                buf@.len() <= usize::MAX,
                n <= max_nodes,
                max_nodes == if start <= buf@.len() { (buf@.len() - start) / 4 } else { 0 },
                i <= n,
                child@.len() == i,
                leaf@.len() == i,
                child@ == spec_tree_child(buf@, start as int, i as int),
                leaf@ == spec_tree_leaf(buf@, start as int, i as int),
            decreases n - i,
        {
            assert(start + 4 * i + 3 < buf@.len()) by (nonlinear_arith)
                requires
                    i < n,
                    n <= (buf@.len() - start) / 4,
                    start <= buf@.len(),
            ;
            let p = start + i * 4;
            child.push([buf[p], buf[p + 2]]);
            leaf.push([buf[p + 1], buf[p + 3]]);
            assert(child@ =~= spec_tree_child(buf@, start as int, i + 1));
            assert(leaf@ =~= spec_tree_leaf(buf@, start as int, i + 1));
            i = i + 1;
        }
        HuffmanTree { child, leaf }
    }

    /// Decodes `out_len` bytes of the bit stream that starts at byte `start`, most significant
    /// bit first. With an empty tree the bytes are copied as they are, clamped to the buffer.
    pub fn decode(&self, buf: &[u8], start: usize, out_len: usize) -> (out: Vec<u8>)
        requires
            self.wf(),
        ensures
            out@ == spec_decode(self.child@, self.leaf@, buf@, start as int, out_len as nat),
    {
        if self.child.len() == 0 {
            let safe_start = if start < buf.len() {
                start
            } else {
                buf.len()
            };
            let end = start.saturating_add(out_len);
            let safe_end = if end < buf.len() {
                end
            } else {
                buf.len()
            };
            let mut out: Vec<u8> = Vec::new();
            let mut k = safe_start;
            while k < safe_end
                invariant
                    safe_start <= k <= safe_end <= buf@.len(),
                    out@ == buf@.subrange(safe_start as int, k as int),
                decreases safe_end - k,
            {
                out.push(buf[k]);
                assert(buf@.subrange(safe_start as int, k + 1) =~= buf@.subrange(
                    safe_start as int,
                    k as int,
                ).push(buf@[k as int]));
                k = k + 1;
            }
            return out;
        }
        let ghost total = decode_walk(
            self.child@,
            self.leaf@,
            buf@,
            8 * start,
            0,
            Seq::empty(),
            out_len as nat,
        );
        let mut out: Vec<u8> = Vec::with_capacity(out_len);
        let mut node: usize = 0;
        let mut byte_pos: usize = start;
        while out.len() < out_len && byte_pos < buf.len()
            invariant
                self.wf(),
                self.child@.len() > 0,
                node < self.child@.len(),
                start <= byte_pos,
                total == decode_walk(
                    self.child@,
                    self.leaf@,
                    buf@,
                    8 * byte_pos,
                    node as int,
                    out@,
                    out_len as nat,
                ),
            decreases buf@.len() - byte_pos,
        {
            let b = buf[byte_pos];
            let ghost base = 8 * byte_pos;
            byte_pos = byte_pos + 1;
            let mut k: u32 = 0;
            while k < 8 && out.len() < out_len
                invariant
                    self.wf(),
                    self.child@.len() > 0,
                    node < self.child@.len(),
                    k <= 8,
                    base == 8 * (byte_pos - 1),
                    byte_pos <= buf@.len(),
                    1 <= byte_pos,
                    b == buf@[byte_pos - 1],
                    total == decode_walk(
                        self.child@,
                        self.leaf@,
                        buf@,
                        base + k,
                        node as int,
                        out@,
                        out_len as nat,
                    ),
                decreases 8 - k,
            {
                let bit: u8 = (b >> ((7 - k) as u8)) & 1u8;
                proof {
                    let q = base + k;
                    assert(q / 8 == byte_pos - 1 && q % 8 == k) by (nonlinear_arith)
                        requires
                            q == 8 * (byte_pos - 1) + k,
                            0 <= k < 8,
                    ;
                    assert(bit == msb_bit(buf@, q));
                    assert(bit <= 1) by (bit_vector)
                        requires
                            bit == (b >> ((7 - k) as u8)) & 1u8,
                    ;
                }
                let ghost old_node = node as int;
                let ghost old_out = out@;
                let pair = self.child[node];
                let next_node_idx = pair[bit as usize];
                assert(next_node_idx == self.child@[old_node][bit as int]);
                if next_node_idx == 0 {
                    let lp = self.leaf[node];
                    out.push(lp[bit as usize]);
                    node = 0;
                } else {
                    let next = next_node_idx as usize;
                    node = if next < self.child.len() {
                        next
                    } else {
                        0
                    };
                }
                proof {
                    let q = base + k;
                    assert(0 <= q < 8 * buf@.len()) by (nonlinear_arith)
                        requires
                            q == 8 * (byte_pos - 1) + k,
                            0 <= k < 8,
                            byte_pos <= buf@.len(),
                            byte_pos >= 1,
                    ;
                    assert(decode_walk(
                        self.child@,
                        self.leaf@,
                        buf@,
                        q,
                        old_node,
                        old_out,
                        out_len as nat,
                    ) == decode_walk(
                        self.child@,
                        self.leaf@,
                        buf@,
                        q + 1,
                        node as int,
                        out@,
                        out_len as nat,
                    ));
                }
                k = k + 1;
            }
            proof {
                if k == 8 {
                    assert(base + k == 8 * byte_pos);
                }
            }
        }
        out
    }
}

} // verus!
