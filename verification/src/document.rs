//! The document containers: a `Block` owns one optional header line and the
//! body lines subordinate to it; a `Document` owns the ordered blocks. Both
//! are append-only and offer backward structural searches.

use vstd::prelude::*;

use crate::line::FormattedLine;
use crate::line::LineModel;
use crate::line::LineType;

verus! {

/// Mathematical model of a block.
#[verifier::ext_equal]
pub ghost struct BlockModel {
    pub header: Option<LineModel>,
    pub lines: Seq<LineModel>,
}

/// The indent level of a block's contents: one deeper than its header, or
/// zero for the implicit leading block.
pub open spec fn contents_level_spec(b: BlockModel) -> nat {
    match b.header {
        Some(h) => h.indent_level + 1,
        None => 0,
    }
}

/// The raw indent the block's header had in the source; zero for the
/// implicit leading block.
pub open spec fn raw_header_indent_spec(b: BlockModel) -> nat {
    match b.header {
        Some(h) => h.raw.num_indent,
        None => 0,
    }
}

/// The most recent line of `lines` with the given classification.
pub open spec fn find_last_of_type(lines: Seq<LineModel>, t: LineType) -> Option<LineModel>
    decreases lines.len(),
{
    if lines.len() == 0 {
        None
    } else if lines.last().line_type == t {
        Some(lines.last())
    } else {
        find_last_of_type(lines.drop_last(), t)
    }
}

/// The most recent line of `lines` whose raw indent is `n`.
pub open spec fn find_last_with_raw(lines: Seq<LineModel>, n: nat) -> Option<LineModel>
    decreases lines.len(),
{
    if lines.len() == 0 {
        None
    } else if lines.last().raw.num_indent == n {
        Some(lines.last())
    } else {
        find_last_with_raw(lines.drop_last(), n)
    }
}

/// What `find_last_of_type` returns is one of the lines searched.
pub proof fn lemma_find_last_of_type_in(lines: Seq<LineModel>, t: LineType)
    ensures
        match find_last_of_type(lines, t) {
            Some(l) => exists|j: int| 0 <= j < lines.len() && lines[j] == l,
            None => true,
        },
    decreases lines.len(),
{
    if lines.len() == 0 {
    } else if lines.last().line_type == t {
        assert(lines[lines.len() - 1] == lines.last());
    } else {
        lemma_find_last_of_type_in(lines.drop_last(), t);
        match find_last_of_type(lines.drop_last(), t) {
            Some(l) => {
                let j = choose|j: int|
                    0 <= j < lines.drop_last().len() && lines.drop_last()[j] == l;
                assert(lines[j] == l);
            },
            None => {},
        }
    }
}

/// What `find_last_with_raw` returns is one of the lines searched.
pub proof fn lemma_find_last_with_raw_in(lines: Seq<LineModel>, n: nat)
    ensures
        match find_last_with_raw(lines, n) {
            Some(l) => exists|j: int| 0 <= j < lines.len() && lines[j] == l,
            None => true,
        },
    decreases lines.len(),
{
    if lines.len() == 0 {
    } else if lines.last().raw.num_indent == n {
        assert(lines[lines.len() - 1] == lines.last());
    } else {
        lemma_find_last_with_raw_in(lines.drop_last(), n);
        match find_last_with_raw(lines.drop_last(), n) {
            Some(l) => {
                let j = choose|j: int|
                    0 <= j < lines.drop_last().len() && lines.drop_last()[j] == l;
                assert(lines[j] == l);
            },
            None => {},
        }
    }
}

/// The previous list item of a block's body: the most recent bullet point
/// or, failing that, the most recent task item.
pub open spec fn prev_list_item_spec(lines: Seq<LineModel>) -> Option<LineModel> {
    match find_last_of_type(lines, LineType::ListBulletPoint) {
        Some(l) => Some(l),
        None => find_last_of_type(lines, LineType::ListTodoItem),
    }
}

/// One header (absent only for the implicit leading block) plus the ordered
/// body lines subordinate to it.
pub struct Block {
    pub header: Option<FormattedLine>,
    pub lines: Vec<FormattedLine>,
}

impl View for Block {
    type V = BlockModel;

    open spec fn view(&self) -> BlockModel {
        BlockModel {
            header: match self.header {
                Some(h) => Some(h@),
                None => None,
            },
            lines: self.lines@.map_values(|l: FormattedLine| l@),
        }
    }
}

impl Block {
    /// A new block rooted at the given header line.
    pub fn new(header: FormattedLine) -> (r: Block)
        ensures
            r@.header == Some(header@),
            r@.lines == Seq::<LineModel>::empty(),
    {
        let b = Block { header: Some(header), lines: Vec::new() };
        proof {
            assert(b@.lines =~= Seq::<LineModel>::empty());
        }
        b
    }

    /// The implicit, headerless block that precedes the first header.
    pub fn new_leading() -> (r: Block)
        ensures
            r@.header is None,
            r@.lines == Seq::<LineModel>::empty(),
    {
        let b = Block { header: None, lines: Vec::new() };
        proof {
            assert(b@.lines =~= Seq::<LineModel>::empty());
        }
        b
    }

    /// Whether this block is rooted at a header.
    pub fn has_header(&self) -> (r: bool)
        ensures
            r == (self@.header is Some),
    {
        self.header.is_some()
    }

    /// The indent level of this block's contents.
    pub fn contents_indent_level(&self) -> (r: usize)
        requires
            match self@.header {
                Some(h) => h.indent_level < usize::MAX,
                None => true,
            },
        ensures
            r as nat == contents_level_spec(self@),
    {
        match &self.header {
            Some(h) => h.indent_level + 1,
            None => 0,
        }
    }

    /// The raw indent this block's header had in the source.
    pub fn raw_header_indent(&self) -> (r: usize)
        ensures
            r as nat == raw_header_indent_spec(self@),
    {
        match &self.header {
            Some(h) => h.original_raw.num_indent,
            None => 0,
        }
    }

    /// The most recently appended body line, if any.
    pub fn last_line(&self) -> (r: Option<&FormattedLine>)
        ensures
            match r {
                Some(l) => self@.lines.len() > 0 && l@ == self@.lines.last(),
                None => self@.lines.len() == 0,
            },
    {
        let n = self.lines.len();
        if n == 0 {
            None
        } else {
            Some(&self.lines[n - 1])
        }
    }

    /// Appends a body line to this block.
    pub fn add_line(&mut self, line: FormattedLine)
        ensures
            final(self)@.header == old(self)@.header,
            final(self)@.lines == old(self)@.lines.push(line@),
    {
        self.lines.push(line);
        proof {
            assert(self@.lines =~= old(self)@.lines.push(self.lines@.last()@));
        }
    }

    /// The most recent prior body line with the given classification,
    /// searched backward.
    pub fn find_previous_of(&self, line_type: LineType) -> (r: Option<&FormattedLine>)
        ensures
            match r {
                Some(l) => find_last_of_type(self@.lines, line_type) == Some(l@),
                None => find_last_of_type(self@.lines, line_type) is None,
            },
    {
        let mut i = self.lines.len();
        proof {
            assert(self@.lines.take(i as int) =~= self@.lines);
        }
        while i > 0
            invariant
                0 <= i <= self.lines.len(),
                self@.lines.len() == self.lines.len(),
                find_last_of_type(self@.lines, line_type) == find_last_of_type(
                    self@.lines.take(i as int),
                    line_type,
                ),
            decreases i,
        {
            let idx = i - 1;
            proof {
                assert(self@.lines.take(i as int).last() == self@.lines[idx as int]);
                assert(self@.lines.take(i as int).drop_last() =~= self@.lines.take(idx as int));
            }
            if self.lines[idx].line_type == line_type {
                return Some(&self.lines[idx]);
            }
            i = idx;
        }
        proof {
            assert(self@.lines.take(0) =~= Seq::<LineModel>::empty());
        }
        None
    }

    /// The most recent prior body line whose raw indent equals `num_indent`,
    /// searched backward.
    pub fn find_latest_line_with_raw_indent(&self, num_indent: usize) -> (r: Option<
        &FormattedLine,
    >)
        ensures
            match r {
                Some(l) => find_last_with_raw(self@.lines, num_indent as nat) == Some(l@),
                None => find_last_with_raw(self@.lines, num_indent as nat) is None,
            },
    {
        let mut i = self.lines.len();
        proof {
            assert(self@.lines.take(i as int) =~= self@.lines);
        }
        while i > 0
            invariant
                0 <= i <= self.lines.len(),
                self@.lines.len() == self.lines.len(),
                find_last_with_raw(self@.lines, num_indent as nat) == find_last_with_raw(
                    self@.lines.take(i as int),
                    num_indent as nat,
                ),
            decreases i,
        {
            let idx = i - 1;
            proof {
                assert(self@.lines.take(i as int).last() == self@.lines[idx as int]);
                assert(self@.lines.take(i as int).drop_last() =~= self@.lines.take(idx as int));
            }
            if self.lines[idx].original_raw.num_indent == num_indent {
                return Some(&self.lines[idx]);
            }
            i = idx;
        }
        proof {
            assert(self@.lines.take(0) =~= Seq::<LineModel>::empty());
        }
        None
    }
}

/// Mathematical model of a document.
#[verifier::ext_equal]
pub ghost struct DocModel {
    pub blocks: Seq<BlockModel>,
}

/// A document always holds the implicit headerless leading block first, and
/// every later block is rooted at a header.
pub open spec fn doc_wf(d: DocModel) -> bool {
    &&& d.blocks.len() >= 1
    &&& d.blocks[0].header is None
    &&& forall|i: int| 1 <= i < d.blocks.len() ==> (#[trigger] d.blocks[i]).header is Some
}

/// The most recent block whose header's raw indent equals `n`, skipping the
/// headerless leading block.
pub open spec fn find_last_block_with_raw(blocks: Seq<BlockModel>, n: nat) -> Option<BlockModel>
    decreases blocks.len(),
{
    if blocks.len() == 0 {
        None
    } else if blocks.last().header is Some && raw_header_indent_spec(blocks.last()) == n {
        Some(blocks.last())
    } else {
        find_last_block_with_raw(blocks.drop_last(), n)
    }
}

/// What `find_last_block_with_raw` returns is one of the blocks searched.
pub proof fn lemma_find_last_block_with_raw_in(blocks: Seq<BlockModel>, n: nat)
    ensures
        match find_last_block_with_raw(blocks, n) {
            Some(b) => exists|j: int| 0 <= j < blocks.len() && blocks[j] == b,
            None => true,
        },
    decreases blocks.len(),
{
    if blocks.len() == 0 {
    } else if blocks.last().header is Some && raw_header_indent_spec(blocks.last()) == n {
        assert(blocks[blocks.len() - 1] == blocks.last());
    } else {
        lemma_find_last_block_with_raw_in(blocks.drop_last(), n);
        match find_last_block_with_raw(blocks.drop_last(), n) {
            Some(b) => {
                let j = choose|j: int|
                    0 <= j < blocks.drop_last().len() && blocks.drop_last()[j] == b;
                assert(blocks[j] == b);
            },
            None => {},
        }
    }
}

/// `d` with `l` appended to the body of its current (last) block.
pub open spec fn doc_push_line(d: DocModel, l: LineModel) -> DocModel
    recommends
        d.blocks.len() > 0,
{
    DocModel {
        blocks: d.blocks.update(
            d.blocks.len() - 1,
            BlockModel { header: d.blocks.last().header, lines: d.blocks.last().lines.push(l) },
        ),
    }
}

/// Every indent level stored in `lines` is at most `b`.
pub open spec fn line_levels_le(lines: Seq<LineModel>, b: int) -> bool {
    forall|j: int| 0 <= j < lines.len() ==> (#[trigger] lines[j]).indent_level <= b
}

/// Every indent level stored in the block (header included) is at most `b`.
pub open spec fn block_levels_le(blk: BlockModel, b: int) -> bool {
    &&& match blk.header {
        Some(h) => h.indent_level <= b,
        None => true,
    }
    &&& line_levels_le(blk.lines, b)
}

/// Every indent level stored in the document is at most `b`.
pub open spec fn doc_levels_le(d: DocModel, b: int) -> bool {
    forall|i: int| 0 <= i < d.blocks.len() ==> block_levels_le(#[trigger] d.blocks[i], b)
}

pub proof fn lemma_doc_levels_le_mono(d: DocModel, b1: int, b2: int)
    requires
        doc_levels_le(d, b1),
        b1 <= b2,
    ensures
        doc_levels_le(d, b2),
{
    assert forall|i: int| 0 <= i < d.blocks.len() implies block_levels_le(
        #[trigger] d.blocks[i],
        b2,
    ) by {
        assert(block_levels_le(d.blocks[i], b1));
        assert(line_levels_le(d.blocks[i].lines, b2));
    }
}

/// The ordered sequence of blocks, beginning with the implicit headerless
/// leading block.
pub struct Document {
    pub blocks: Vec<Block>,
}

impl View for Document {
    type V = DocModel;

    open spec fn view(&self) -> DocModel {
        DocModel { blocks: self.blocks@.map_values(|b: Block| b@) }
    }
}

impl Document {
    /// A new document holding only the implicit leading block.
    pub fn new() -> (r: Document)
        ensures
            r@.blocks.len() == 1,
            r@.blocks[0].header is None,
            r@.blocks[0].lines == Seq::<LineModel>::empty(),
    {
        let mut blocks = Vec::new();
        blocks.push(Block::new_leading());
        let d = Document { blocks };
        d
    }

    /// The block currently being filled.
    pub fn last_block(&self) -> (r: &Block)
        requires
            self@.blocks.len() > 0,
        ensures
            r@ == self@.blocks.last(),
    {
        let n = self.blocks.len();
        &self.blocks[n - 1]
    }

    /// Starts a new block, appended after the existing ones.
    pub fn add_block(&mut self, block: Block)
        ensures
            final(self)@.blocks == old(self)@.blocks.push(block@),
    {
        self.blocks.push(block);
        proof {
            assert(self@.blocks =~= old(self)@.blocks.push(self.blocks@.last()@));
        }
    }

    /// Appends a line to the body of the block currently being filled.
    pub fn push_line(&mut self, line: FormattedLine)
        requires
            old(self)@.blocks.len() > 0,
        ensures
            final(self)@ == doc_push_line(old(self)@, line@),
    {
        let ghost l = line@;
        let mut last = match self.blocks.pop() {
            Some(b) => b,
            None => Block::new_leading(),
        };
        last.lines.push(line);
        proof {
            assert(last@.lines =~= old(self)@.blocks.last().lines.push(l));
        }
        self.blocks.push(last);
        proof {
            assert(self@.blocks =~= doc_push_line(old(self)@, l).blocks);
        }
    }

    /// The most recent prior block whose header's raw indent equals
    /// `num_indent`, searched backward, skipping the headerless leading
    /// block.
    pub fn find_latest_block_with_raw_indent(&self, num_indent: usize) -> (r: Option<&Block>)
        ensures
            match r {
                Some(b) => find_last_block_with_raw(self@.blocks, num_indent as nat) == Some(b@),
                None => find_last_block_with_raw(self@.blocks, num_indent as nat) is None,
            },
    {
        let mut i = self.blocks.len();
        proof {
            assert(self@.blocks.take(i as int) =~= self@.blocks);
        }
        while i > 0
            invariant
                0 <= i <= self.blocks.len(),
                self@.blocks.len() == self.blocks.len(),
                find_last_block_with_raw(self@.blocks, num_indent as nat)
                    == find_last_block_with_raw(self@.blocks.take(i as int), num_indent as nat),
            decreases i,
        {
            let idx = i - 1;
            proof {
                assert(self@.blocks.take(i as int).last() == self@.blocks[idx as int]);
                assert(self@.blocks.take(i as int).drop_last() =~= self@.blocks.take(idx as int));
            }
            if self.blocks[idx].header.is_some() && self.blocks[idx].raw_header_indent()
                == num_indent {
                return Some(&self.blocks[idx]);
            }
            i = idx;
        }
        proof {
            assert(self@.blocks.take(0) =~= Seq::<BlockModel>::empty());
        }
        None
    }
}

} // verus!
