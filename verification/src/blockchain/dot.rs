//! The blockchain as a graph in the DOT language of graphviz: one box per
//! block, an arrow from each block to its children, and a dotted arrow from
//! the block that handed out a transfer's input key to the transfer.

use crate::blockchain::hash::{bytes_to_hex, lemma_hex_len, spec_hex};
use vstd::string::StringExecFns;
use crate::blockchain::{bh, last_with_output, walk, BlockType, Chain};
use vstd::prelude::*;

verus! {

/// The color of transaction relations, and of registrations.
pub open spec fn tx_relation_color() -> Seq<char> {
    "blue"@
}

/// The block below `b` that handed out the input key of its transaction.
pub open spec fn tx_parent(nodes: Seq<Seq<BlockType>>, b: BlockType) -> Option<BlockType> {
    match b.spec_data()@.input {
        Some(key) => {
            let pc = walk(nodes, nodes.len() as int, b.spec_parent()@);
            match last_with_output(pc, key, pc.len() as int) {
                Some(k) => Some(pc[k]),
                None => None,
            }
        },
        None => None,
    }
}

/// The color of a block: red when it is for the item highlighted, blue for
/// a registration or a transfer whose input no block hands out, black
/// otherwise.
pub open spec fn block_color(nodes: Seq<Seq<BlockType>>, id: Seq<char>, b: BlockType) -> Seq<char> {
    if id.len() != 0 && b.spec_data()@.id == id {
        "red"@
    } else if tx_parent(nodes, b) is None {
        tx_relation_color()
    } else {
        "black"@
    }
}

/// `"<from>" -> "<to>"`, quoted, with the given tail.
pub open spec fn edge_line(from: Seq<char>, to: Seq<char>, tail: Seq<char>) -> Seq<char> {
    "\t\""@ + from + "\" -> \""@ + to + "\""@ + tail + ";\n"@
}

/// The box of a block: its hash, labelled with the first six digits of
/// the hash and the item id.
pub open spec fn box_line(b: BlockType, color: Seq<char>) -> Seq<char> {
    "\t\""@ + spec_hex(bh(b)) + "\"[label=\""@ + spec_hex(bh(b)).take(6) + "...\\nID: "@ + b.spec_data()@.id
        + "\", shape=box, color="@ + color + "];\n"@
}

/// The arrows from the block with hash `h` to the blocks among the first
/// `m` of `s` that name it as parent.
pub open spec fn child_lines(s: Seq<BlockType>, h: Seq<u8>, m: int) -> Seq<char>
    decreases m,
{
    if m <= 0 {
        seq![]
    } else {
        child_lines(s, h, m - 1) + if s[m - 1].spec_parent()@ == h {
            edge_line(spec_hex(h), spec_hex(bh(s[m - 1])), seq![])
        } else {
            seq![]
        }
    }
}

/// The lines of block `b` of node `i`.
pub open spec fn block_lines(nodes: Seq<Seq<BlockType>>, id: Seq<char>, i: int, b: BlockType) -> Seq<char> {
    box_line(b, block_color(nodes, id, b)) + (if i != nodes.len() - 1 {
        child_lines(nodes[i + 1], bh(b), nodes[i + 1].len() as int)
    } else {
        seq![]
    }) + match tx_parent(nodes, b) {
        Some(p) => edge_line(spec_hex(bh(p)), spec_hex(bh(b)), " [color=blue, style=dotted]"@),
        None => seq![],
    }
}

/// The lines of the first `m` blocks of node `i`.
pub open spec fn node_lines(nodes: Seq<Seq<BlockType>>, id: Seq<char>, i: int, m: int) -> Seq<char>
    decreases m,
{
    if m <= 0 {
        seq![]
    } else {
        node_lines(nodes, id, i, m - 1) + block_lines(nodes, id, i, nodes[i][m - 1])
    }
}

/// The lines of the first `n` nodes.
pub open spec fn all_lines(nodes: Seq<Seq<BlockType>>, id: Seq<char>, n: int) -> Seq<char>
    decreases n,
{
    if n <= 0 {
        seq![]
    } else {
        all_lines(nodes, id, n - 1) + node_lines(nodes, id, n - 1, nodes[n - 1].len() as int)
    }
}

/// The DOT text of the blockchain, with the blocks for item `id` in red
/// (no block when `id` is empty).
pub open spec fn spec_dot(nodes: Seq<Seq<BlockType>>, id: Seq<char>) -> Seq<char> {
    "digraph Blockchain {\n"@ + all_lines(nodes, id, nodes.len() as int) + "}"@
}

/// The hexadecimal form of a concatenation is the concatenation of the forms.
pub proof fn lemma_hex_append(s: Seq<u8>, t: Seq<u8>)
    ensures
        spec_hex(s + t) == spec_hex(s) + spec_hex(t),
    decreases t.len(),
{
    if t.len() == 0 {
        assert(s + t =~= s);
        assert(spec_hex(s) + spec_hex(t) =~= spec_hex(s));
    } else {
        lemma_hex_append(s, t.drop_last());
        assert((s + t).drop_last() =~= s + t.drop_last());
        assert((s + t).last() == t.last());
    }
}

fn append(out: &mut String, s: &str)
    ensures
        final(out)@ == old(out)@ + s@,
{
    out.append(s);
}

fn append_string(out: &mut String, s: &String)
    ensures
        final(out)@ == old(out)@ + s@,
{
    out.append(s.as_str());
}

fn edge(out: &mut String, from: &String, to: &String, tail: &str)
    ensures
        final(out)@ == old(out)@ + edge_line(from@, to@, tail@),
{
    let ghost o = out@;
    append(out, "\t\"");
    append_string(out, from);
    append(out, "\" -> \"");
    append_string(out, to);
    append(out, "\"");
    append(out, tail);
    append(out, ";\n");
    assert(out@ =~= o + edge_line(from@, to@, tail@));
}

impl Chain {
    /// The blockchain as a DOT graph, with the blocks for item `id` in red.
    pub fn dot_graph(&self, id: &str) -> (dot: String)
        requires
            self.wf(),
        ensures
            dot@ == spec_dot(self@, id@),
    {
        let ghost nodes = self@;
        let id_s = id.to_owned();
        let mut dot = "digraph Blockchain {\n".to_owned();
        let n = self.node_count();
        let mut i: usize = 0;
        while i < n
            invariant
                i <= n,
                n == nodes.len(),
                nodes == self@,
                id_s@ == id@,
                self.wf(),
                dot@ == "digraph Blockchain {\n"@ + all_lines(nodes, id@, i as int),
            decreases n - i,
        {
            let blocks = self.node_blocks(i);
            let ghost before = dot@;
            let mut m: usize = 0;
            while m < blocks.len()
                invariant
                    i < n,
                    n == nodes.len(),
                    nodes == self@,
                    id_s@ == id@,
                    self.wf(),
                    blocks@ == nodes[i as int],
                    m <= blocks@.len(),
                    dot@ == before + node_lines(nodes, id@, i as int, m as int),
                decreases blocks@.len() - m,
            {
                let blk = &blocks[m];
                let ghost b0 = dot@;
                self.block_dot(&mut dot, i, blk, &id_s, id);
                assert(dot@ =~= before + node_lines(nodes, id@, i as int, m + 1));
                m = m + 1;
            }
            assert(dot@ =~= "digraph Blockchain {\n"@ + all_lines(nodes, id@, i + 1));
            i = i + 1;
        }
        append(&mut dot, "}");
        dot
    }

    fn block_dot(&self, dot: &mut String, i: usize, blk: &BlockType, id_s: &String, id: &str)
        requires
            self.wf(),
            i < self@.len(),
            id_s@ == id@,
        ensures
            final(dot)@ == old(dot)@ + block_lines(self@, id@, i as int, *blk),
    {
        let ghost nodes = self@;
        let ghost d0 = dot@;
        let hash = blk.calc_hash();
        let hash_str = bytes_to_hex(hash.as_slice());
        let mut first: Vec<u8> = Vec::new();
        first.push(hash[0]);
        first.push(hash[1]);
        first.push(hash[2]);
        let prefix = bytes_to_hex(first.as_slice());
        proof {
            let h = hash@;
            assert(first@ =~= h.take(3));
            assert(h =~= h.take(3) + h.skip(3));
            lemma_hex_append(h.take(3), h.skip(3));
            lemma_hex_len(h.take(3));
            assert(prefix@ =~= spec_hex(h).take(6));
        }
        let tx_paren = self.get_transaction_parent_block(blk);
        let color = if !id.is_empty() && blk.get_data().get_id().eq(id_s) {
            "red"
        } else if tx_paren.is_none() {
            "blue"
        } else {
            "black"
        };
        append(dot, "\t\"");
        append_string(dot, &hash_str);
        append(dot, "\"[label=\"");
        append_string(dot, &prefix);
        append(dot, "...\\nID: ");
        append_string(dot, blk.get_data().get_id());
        append(dot, "\", shape=box, color=");
        append(dot, color);
        append(dot, "];\n");
        assert(dot@ =~= d0 + box_line(*blk, block_color(nodes, id@, *blk)));
        let ghost d1 = dot@;
        if i != self.node_count() - 1 {
            let children = self.node_blocks(i + 1);
            let mut c: usize = 0;
            while c < children.len()
                invariant
                    c <= children@.len(),
                    i + 1 < nodes.len(),
                    children@ == nodes[i + 1],
                    hash_str@ == spec_hex(hash@),
                    hash@ == bh(*blk),
                    dot@ == d1 + child_lines(nodes[i + 1], hash@, c as int),
                decreases children@.len() - c,
            {
                let child = &children[c];
                let ghost dc = dot@;
                assert(*child == nodes[i + 1][c as int]);
                if crate::blockchain::util::bytes_eq(child.get_parent_hash().as_slice(), hash.as_slice()) {
                    let hash_c = bytes_to_hex(child.calc_hash().as_slice());
                    edge(dot, &hash_str, &hash_c, "");
                    proof {
                        reveal_strlit("");
                    }
                    assert(dot@ == dc + edge_line(spec_hex(hash@), spec_hex(bh(*child)), seq![]));
                } else {
                    assert(dot@ == dc);
                }
                assert(child_lines(nodes[i + 1], hash@, c + 1) == child_lines(nodes[i + 1], hash@, c as int) + if nodes[i + 1][c as int].spec_parent()@ == hash@ {
                    edge_line(spec_hex(hash@), spec_hex(bh(nodes[i + 1][c as int])), seq![])
                } else {
                    seq![]
                });
                assert(dot@ =~= d1 + child_lines(nodes[i + 1], hash@, c + 1));
                c = c + 1;
            }
        }
        let ghost d2 = dot@;
        if let Some(blk_p) = tx_paren {
            let hash_p = bytes_to_hex(blk_p.calc_hash().as_slice());
            edge(dot, &hash_p, &hash_str, " [color=blue, style=dotted]");
        }
        assert(dot@ =~= d0 + block_lines(nodes, id@, i as int, *blk));
    }
}

} // verus!
