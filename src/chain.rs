//! The chain: an append-only sequence of blocks linked by digest.
use vstd::prelude::*;

use crate::block::{block_digest, zero_digest, Block, BlockView};
use crate::document::{parse_block, parse_block_view, split_on, split_ranges, BlockError};
use crate::hex::str_chars;
use crate::decimal::{padded_decimal, push_padded_decimal};
use crate::hash::{bytes_equal, HASH256_BYTES};
use crate::hex::{bytes_to_hex, hex_encode};

verus! {

/// An append was refused: the block does not name the chain's tail.
#[derive(Debug, Clone, Copy, PartialEq, Eq)]
pub struct LinkageError {
    /// The digest that the block had to name as its predecessor.
    pub expected: [u8; HASH256_BYTES],
    /// The predecessor digest that the block named.
    pub actual: [u8; HASH256_BYTES],
}

/// The predecessor digest that the next block of a chain must carry: all
/// zero for an empty chain, else the digest of the tail.
pub open spec fn expected_previous(c: Seq<BlockView>) -> Seq<u8> {
    if c.len() == 0 {
        zero_digest()
    } else {
        block_digest(c.last())
    }
}

/// Every block names its predecessor's digest; the first names the
/// all-zero digest.
pub open spec fn chain_linked(c: Seq<BlockView>) -> bool {
    forall|i: int| 0 <= i < c.len() ==> #[trigger] c[i].previous == expected_previous(c.take(i))
}

/// Why loading stopped, with the position of the document among the pieces
/// of the text (the piece before the first separator is position 0).
#[derive(Debug, Clone, Copy, PartialEq, Eq)]
pub enum LoadError {
    /// The document does not describe a block.
    Document(usize, BlockError),
    /// The document's block does not link to the chain's tail.
    Linkage(usize, LinkageError),
}

/// The line that separates documents.
pub open spec fn document_separator() -> Seq<char> {
    seq!['-', '-', '-']
}

/// The pieces of a persisted chain; the first is a preamble, each later
/// one a block document.
pub open spec fn documents(text: Seq<char>) -> Seq<Seq<char>> {
    split_on(text, document_separator())
}

/// Appending the blocks of documents `i` onwards to `c`: the chain reached,
/// and the position of the document that stopped it, if one did.
pub open spec fn load_from(c: Seq<BlockView>, docs: Seq<Seq<char>>, i: int) -> (Seq<BlockView>, Option<int>)
    decreases docs.len() - i,
{
    if i < 0 || i >= docs.len() {
        (c, None)
    } else {
        match parse_block_view(docs[i]) {
            Err(_) => (c, Some(i)),
            Ok(b) => if b.previous == expected_previous(c) {
                load_from(c.push(b), docs, i + 1)
            } else {
                (c, Some(i))
            },
        }
    }
}

/// The line that lists block `b` at position `i`: the position as eight
/// zero-padded decimal digits, a colon, a space, the hex digest.
pub open spec fn render_line(i: nat, b: BlockView) -> Seq<char> {
    padded_decimal(i, 8) + seq![':', ' '] + hex_encode(block_digest(b)) + seq!['\n']
}

/// One line per block, in chain order.
pub open spec fn render_chain(c: Seq<BlockView>) -> Seq<char>
    decreases c.len(),
{
    if c.len() == 0 {
        Seq::empty()
    } else {
        render_chain(c.drop_last()) + render_line((c.len() - 1) as nat, c.last())
    }
}

/// An empty chain expects the all-zero digest, and a one-block sequence is
/// a linked chain exactly when its block names the all-zero digest.
pub proof fn lemma_genesis_rule(b: BlockView)
    ensures
        expected_previous(Seq::empty()) == zero_digest(),
        chain_linked(seq![b]) <==> b.previous == zero_digest(),
{
    let c = seq![b];
    assert(c.take(0) =~= Seq::<BlockView>::empty());
    if b.previous == zero_digest() {
        assert forall|i: int| 0 <= i < c.len() implies #[trigger] c[i].previous
            == expected_previous(c.take(i)) by {
            assert(i == 0);
        }
    }
    if chain_linked(c) {
        assert(c[0].previous == expected_previous(c.take(0)));
    }
}

/// On a non-empty linked chain the next block must name the tail's digest,
/// and extending the chain by a block keeps it linked exactly when the block
/// does so.
pub proof fn lemma_linkage_rule(c: Seq<BlockView>, y: BlockView)
    requires
        c.len() > 0,
        chain_linked(c),
    ensures
        expected_previous(c) == block_digest(c.last()),
        chain_linked(c.push(y)) <==> y.previous == block_digest(c.last()),
{
    let d = c.push(y);
    assert(d.take(c.len() as int) =~= c);
    if y.previous == block_digest(c.last()) {
        assert forall|i: int| 0 <= i < d.len() implies #[trigger] d[i].previous
            == expected_previous(d.take(i)) by {
            if i < c.len() {
                assert(d.take(i) =~= c.take(i));
                assert(c[i].previous == expected_previous(c.take(i)));
            }
        }
    }
    if chain_linked(d) {
        assert(d[c.len() as int].previous == expected_previous(d.take(c.len() as int)));
    }
}

/// An ordered, append-only sequence of blocks.
pub struct BlockChain {
    chain: Vec<Block>,
}

impl View for BlockChain {
    type V = Seq<BlockView>;

    closed spec fn view(&self) -> Seq<BlockView> {
        self.chain@.map_values(|b: Block| b@)
    }
}

impl BlockChain {
    /// An empty chain.
    pub fn new() -> (c: BlockChain)
        ensures
            c@ == Seq::<BlockView>::empty(),
            chain_linked(c@),
    {
        let c = BlockChain { chain: Vec::new() };
        assert(c@ =~= Seq::<BlockView>::empty());
        c
    }

    /// The number of blocks.
    pub fn len(&self) -> (r: usize)
        ensures
            r == self@.len(),
    {
        self.chain.len()
    }

    /// The block at position `i`.
    pub fn get(&self, i: usize) -> (r: &Block)
        requires
            i < self@.len(),
        ensures
            r@ == self@[i as int],
    {
        &self.chain[i]
    }

    /// Adds `block` as the new tail if it names the current tail's digest
    /// (the all-zero digest on an empty chain); otherwise reports both
    /// digests and leaves the chain unchanged.
    pub fn append(&mut self, block: Block) -> (r: Result<(), LinkageError>)
        requires
            chain_linked(old(self)@),
        ensures
            r is Ok <==> block@.previous == expected_previous(old(self)@),
            r is Ok ==> final(self)@ == old(self)@.push(block@),
            r is Err ==> final(self)@ == old(self)@,
            chain_linked(final(self)@),
            r matches Err(e) ==> e.expected@ == expected_previous(old(self)@) && e.actual@
                == block@.previous,
    {
        let mut expected = [0u8; HASH256_BYTES];
        let n = self.chain.len();
        if n > 0 {
            self.chain[n - 1].get_hash(&mut expected);
            assert(self@.last() == self.chain@[n - 1]@);
        } else {
            assert(expected@ =~= zero_digest());
        }
        if !bytes_equal(expected.as_slice(), block.get_previous()) {
            let mut actual = [0u8; HASH256_BYTES];
            let p = block.get_previous();
            let mut i: usize = 0;
            while i < HASH256_BYTES
                invariant
                    i <= HASH256_BYTES,
                    p@ == block@.previous,
                    p@.len() == HASH256_BYTES,
                    forall|j: int| 0 <= j < i ==> actual@[j] == p@[j],
                decreases HASH256_BYTES - i,
            {
                actual[i] = p[i];
                i = i + 1;
            }
            assert(actual@ =~= block@.previous);
            return Err(LinkageError { expected, actual });
        }
        let ghost old_view = self@;
        self.chain.push(block);
        proof {
            assert(self@ =~= old_view.push(block@));
            assert forall|i: int| 0 <= i < self@.len() implies #[trigger] self@[i].previous
                == expected_previous(self@.take(i)) by {
                if i < old_view.len() {
                    assert(self@.take(i) =~= old_view.take(i));
                } else {
                    assert(self@.take(i) =~= old_view);
                }
            }
        }
        Ok(())
    }

    /// Appends the blocks of the documents that follow the preamble of
    /// `text`, in order, and stops at the first document that does not
    /// parse or does not link; the documents after it are not read.
    pub fn load(&mut self, text: &str) -> (r: Result<(), LoadError>)
        requires
            chain_linked(old(self)@),
        ensures
            final(self)@ == load_from(old(self)@, documents(text@), 1).0,
            chain_linked(final(self)@),
            r is Ok <==> load_from(old(self)@, documents(text@), 1).1 is None,
            r matches Err(LoadError::Document(k, e)) ==> load_from(
                old(self)@,
                documents(text@),
                1,
            ).1 == Some(k as int) && parse_block_view(documents(text@)[k as int]) == Err::<
                BlockView,
                BlockError,
            >(e),
            r matches Err(LoadError::Linkage(k, e)) ==> load_from(
                old(self)@,
                documents(text@),
                1,
            ).1 == Some(k as int) && (parse_block_view(documents(text@)[k as int]) matches Ok(
                b,
            ) && e.expected@ == expected_previous(final(self)@) && e.actual@ == b.previous),
    {
        let cs = str_chars(text);
        let sep = str_chars("---");
        proof {
            reveal_strlit("---");
            assert(sep@ =~= document_separator());
            assert(cs@.subrange(0, cs@.len() as int) =~= text@);
        }
        let ranges = split_ranges(&cs, 0, cs.len(), &sep);
        let ghost docs = documents(text@);
        let mut i: usize = 1;
        while i < ranges.len()
            invariant
                cs@ == text@,
                docs == documents(text@),
                ranges@.len() == docs.len(),
                forall|k: int|
                    0 <= k < ranges@.len() ==> (#[trigger] ranges@[k]).0 <= ranges@[k].1 <= cs@.len()
                        && cs@.subrange(ranges@[k].0 as int, ranges@[k].1 as int) == docs[k],
                1 <= i,
                chain_linked(self@),
                load_from(old(self)@, docs, 1) == load_from(self@, docs, i as int),
            decreases ranges@.len() - i,
        {
            let (x, y) = ranges[i];
            match parse_block(&cs, x, y) {
                Err(e) => {
                    return Err(LoadError::Document(i, e));
                },
                Ok(b) => {
                    match self.append(b) {
                        Ok(()) => {},
                        Err(e) => {
                            return Err(LoadError::Linkage(i, e));
                        },
                    }
                },
            }
            i = i + 1;
        }
        Ok(())
    }

    /// One line per block, in chain order: its position as eight zero-padded
    /// digits, `": "`, and its digest in hex.
    pub fn render(&self) -> (r: String)
        ensures
            r@ == render_chain(self@),
    {
        let mut r = String::new();
        let mut i: usize = 0;
        while i < self.chain.len()
            invariant
                i <= self@.len(),
                r@ == render_chain(self@.take(i as int)),
            decreases self@.len() - i,
        {
            let mut digest = [0u8; HASH256_BYTES];
            self.chain[i].get_hash(&mut digest);
            push_padded_decimal(&mut r, i as u64, 8);
            r.append(": ");
            let h = bytes_to_hex(digest.as_slice());
            r.append(h.as_str());
            r.append("\n");
            proof {
                reveal_strlit(": ");
                reveal_strlit("\n");
                let t = self@.take(i + 1 as int);
                assert(t.drop_last() =~= self@.take(i as int));
                assert(t.last() == self.chain@[i as int]@);
                assert(r@ =~= render_chain(t));
            }
            i = i + 1;
        }
        assert(self@.take(i as int) =~= self@);
        r
    }
}

} // verus!
