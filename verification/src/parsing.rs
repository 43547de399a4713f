//! The driving pass: consumes raw lines in order, tracks fence state, and
//! for each line resolves a classification and a canonical indent level,
//! growing the document block by block.

use vstd::prelude::*;

use crate::document::Block;
use crate::document::BlockModel;
use crate::document::DocModel;
use crate::document::Document;
use crate::document::block_levels_le;
use crate::document::contents_level_spec;
use crate::document::doc_levels_le;
use crate::document::doc_push_line;
use crate::document::doc_wf;
use crate::document::find_last_block_with_raw;
use crate::document::find_last_of_type;
use crate::document::find_last_with_raw;
use crate::document::lemma_doc_levels_le_mono;
use crate::document::lemma_find_last_block_with_raw_in;
use crate::document::lemma_find_last_of_type_in;
use crate::document::lemma_find_last_with_raw_in;
use crate::document::prev_list_item_spec;
use crate::document::raw_header_indent_spec;
use crate::line::FormattedLine;
use crate::line::LineModel;
use crate::line::LineType;
use crate::line::RawLine;
use crate::line::RawLineModel;
use crate::line::from_raw_spec;
use crate::line::is_header_line;
use crate::line::is_list_line;
use crate::line::is_list_type;
use crate::line::is_marker_line;
use crate::line::raw_of_line;
use crate::text::spaces;
use crate::text::split_lines_spec;

verus! {

/// `n` lowered by one, stopping at zero.
pub open spec fn saturating_dec(n: nat) -> nat {
    if n == 0 {
        0
    } else {
        (n - 1) as nat
    }
}

/// How far `a` reaches beyond `b`, or zero when it does not.
pub open spec fn indent_excess(a: nat, b: nat) -> int {
    if a >= b {
        a - b
    } else {
        0
    }
}

/// The canonical level of a new header with raw indent `r`, decided against
/// the previous block's raw header indent `p`: equal raw indents make a
/// sibling (the previous header's own level); a greater raw indent makes a
/// child (one deeper); a smaller one re-establishes the most recent earlier
/// header with the same raw indent, or falls back to the top level.
pub open spec fn header_indent_spec(d: DocModel, r: nat) -> nat
    recommends
        d.blocks.len() > 0,
{
    let prev = d.blocks.last();
    let p = raw_header_indent_spec(prev);
    if p == r {
        saturating_dec(contents_level_spec(prev))
    } else if p > r {
        match find_last_block_with_raw(d.blocks, r) {
            Some(b) => saturating_dec(contents_level_spec(b)),
            None => 0,
        }
    } else {
        contents_level_spec(prev)
    }
}

/// The canonical level of a new list item with raw indent `r` within the
/// block `blk`: against the previous list item's raw indent, an equal raw
/// indent continues at its level, a greater one nests exactly one level
/// deeper, and a smaller one replays the level of the most recent body line
/// with the same raw indent (or starts a fresh list at the block's contents
/// level). Without a previous list item, the level of the most recent text
/// line, or the block's contents level, is used.
pub open spec fn bullet_indent_spec(blk: BlockModel, r: nat) -> nat {
    match prev_list_item_spec(blk.lines) {
        Some(p) => {
            if p.raw.num_indent == r {
                p.indent_level
            } else if p.raw.num_indent > r {
                match find_last_with_raw(blk.lines, r) {
                    Some(l) => l.indent_level,
                    None => contents_level_spec(blk),
                }
            } else {
                p.indent_level + 1
            }
        },
        None => match find_last_of_type(blk.lines, LineType::Text) {
            Some(t) => t.indent_level,
            None => contents_level_spec(blk),
        },
    }
}

/// The resolution of a plain line (no header, no list item, no fence
/// involvement): a non-empty line directly after a list item continues that
/// item at its level; anything else is resolved at the block's contents
/// level.
pub open spec fn text_line_spec(blk: BlockModel, raw: RawLineModel) -> LineModel {
    if blk.lines.len() > 0 && is_list_type(blk.lines.last().line_type) && raw.trimmed.len() > 0 {
        LineModel {
            indent_level: blk.lines.last().indent_level,
            line_type: LineType::ListContinuousLine,
            contents: raw.trimmed,
            raw: raw,
        }
    } else {
        from_raw_spec(raw, contents_level_spec(blk))
    }
}

/// A line inside a fenced range: fixed at the block's contents level, its
/// contents re-prefixed with the indentation it had beyond the fence's base
/// indent.
pub open spec fn preformatted_spec(raw: RawLineModel, base: nat, level: nat) -> LineModel {
    LineModel {
        indent_level: level,
        line_type: LineType::Preformatted,
        contents: spaces(indent_excess(raw.num_indent, base)) + raw.trimmed,
        raw: raw,
    }
}

/// The parser's whole cross-line state: the document built so far and the
/// fence mode (the base indent captured when a fence was opened).
#[verifier::ext_equal]
pub ghost struct ParseState {
    pub doc: DocModel,
    pub fence: Option<nat>,
}

/// The state before any line is consumed: one implicit headerless block,
/// no fence open.
pub open spec fn init_state() -> ParseState {
    ParseState {
        doc: DocModel {
            blocks: seq![BlockModel { header: None, lines: Seq::<LineModel>::empty() }],
        },
        fence: None,
    }
}

/// One step of the pass: how the state changes when line `l` is consumed.
pub open spec fn spec_step(st: ParseState, l: Seq<char>) -> ParseState {
    let raw = raw_of_line(l);
    let blk = st.doc.blocks.last();
    match st.fence {
        Some(base) => {
            if is_marker_line(raw.trimmed) {
                ParseState { doc: doc_push_line(st.doc, text_line_spec(blk, raw)), fence: None }
            } else {
                ParseState {
                    doc: doc_push_line(
                        st.doc,
                        preformatted_spec(raw, base, contents_level_spec(blk)),
                    ),
                    fence: Some(base),
                }
            }
        },
        None => {
            if is_marker_line(raw.trimmed) {
                ParseState {
                    doc: doc_push_line(st.doc, text_line_spec(blk, raw)),
                    fence: Some(raw.num_indent),
                }
            } else if is_header_line(raw.trimmed) {
                ParseState {
                    doc: DocModel {
                        blocks: st.doc.blocks.push(
                            BlockModel {
                                header: Some(
                                    from_raw_spec(raw, header_indent_spec(st.doc, raw.num_indent)),
                                ),
                                lines: Seq::<LineModel>::empty(),
                            },
                        ),
                    },
                    fence: None,
                }
            } else if is_list_line(raw.trimmed) {
                ParseState {
                    doc: doc_push_line(
                        st.doc,
                        from_raw_spec(raw, bullet_indent_spec(blk, raw.num_indent)),
                    ),
                    fence: None,
                }
            } else {
                ParseState { doc: doc_push_line(st.doc, text_line_spec(blk, raw)), fence: None }
            }
        },
    }
}

/// The state after the first `n` lines of `ls` have been consumed.
pub open spec fn spec_run(ls: Seq<Seq<char>>, n: int) -> ParseState
    decreases n,
{
    if n <= 0 {
        init_state()
    } else {
        spec_step(spec_run(ls, n - 1), ls[n - 1])
    }
}

/// The document that parsing the whole text `s` produces.
pub open spec fn parse_spec(s: Seq<char>) -> DocModel {
    spec_run(split_lines_spec(s), split_lines_spec(s).len() as int).doc
}

/// Appending a line to the current block keeps the document well-formed.
proof fn lemma_push_line_wf(d: DocModel, l: LineModel)
    requires
        doc_wf(d),
    ensures
        doc_wf(doc_push_line(d, l)),
{
    let d2 = doc_push_line(d, l);
    assert(d2.blocks.len() == d.blocks.len());
    assert(d2.blocks[0].header == d.blocks[0].header);
    assert forall|i: int| 1 <= i < d2.blocks.len() implies (#[trigger] d2.blocks[i]).header
        is Some by {
        assert(d.blocks[i].header is Some);
    }
}

/// Every state the pass reaches holds a well-formed document.
pub proof fn lemma_run_wf(ls: Seq<Seq<char>>, n: int)
    ensures
        doc_wf(spec_run(ls, n).doc),
    decreases n,
{
    if n <= 0 {
    } else {
        lemma_run_wf(ls, n - 1);
        let st = spec_run(ls, n - 1);
        let raw = raw_of_line(ls[n - 1]);
        let st2 = spec_step(st, ls[n - 1]);
        match st.fence {
            Some(base) => {
                if is_marker_line(raw.trimmed) {
                    lemma_push_line_wf(st.doc, text_line_spec(st.doc.blocks.last(), raw));
                } else {
                    lemma_push_line_wf(
                        st.doc,
                        preformatted_spec(raw, base, contents_level_spec(st.doc.blocks.last())),
                    );
                }
            },
            None => {
                if is_marker_line(raw.trimmed) {
                    lemma_push_line_wf(st.doc, text_line_spec(st.doc.blocks.last(), raw));
                } else if is_header_line(raw.trimmed) {
                    assert(st2.doc.blocks[0] == st.doc.blocks[0]);
                    assert forall|i: int| 1 <= i < st2.doc.blocks.len() implies (
                    #[trigger] st2.doc.blocks[i]).header is Some by {
                        if i < st.doc.blocks.len() {
                            assert(st.doc.blocks[i].header is Some);
                        }
                    }
                } else if is_list_line(raw.trimmed) {
                    lemma_push_line_wf(
                        st.doc,
                        from_raw_spec(
                            raw,
                            bullet_indent_spec(st.doc.blocks.last(), raw.num_indent),
                        ),
                    );
                } else {
                    lemma_push_line_wf(st.doc, text_line_spec(st.doc.blocks.last(), raw));
                }
            },
        }
    }
}

/// A new header's level never exceeds one more than any bound on the levels
/// already in the document.
proof fn lemma_header_indent_le(d: DocModel, r: nat, b: int)
    requires
        doc_wf(d),
        doc_levels_le(d, b),
        b >= -1,
    ensures
        header_indent_spec(d, r) <= b + 1,
{
    assert(block_levels_le(d.blocks[d.blocks.len() - 1], b));
    lemma_find_last_block_with_raw_in(d.blocks, r);
    match find_last_block_with_raw(d.blocks, r) {
        Some(blk) => {
            let j = choose|j: int| 0 <= j < d.blocks.len() && d.blocks[j] == blk;
            assert(block_levels_le(d.blocks[j], b));
        },
        None => {},
    }
}

/// A new list item's level never exceeds one more than any bound on the
/// levels already in the block.
proof fn lemma_bullet_indent_le(blk: BlockModel, r: nat, b: int)
    requires
        block_levels_le(blk, b),
        b >= -1,
    ensures
        bullet_indent_spec(blk, r) <= b + 1,
{
    lemma_find_last_of_type_in(blk.lines, LineType::ListBulletPoint);
    lemma_find_last_of_type_in(blk.lines, LineType::ListTodoItem);
    lemma_find_last_of_type_in(blk.lines, LineType::Text);
    lemma_find_last_with_raw_in(blk.lines, r);
}

/// One step raises any bound on the stored levels by at most one.
proof fn lemma_step_levels(st: ParseState, l: Seq<char>, b: int)
    requires
        doc_wf(st.doc),
        doc_levels_le(st.doc, b),
        b >= -1,
    ensures
        doc_levels_le(spec_step(st, l).doc, b + 1),
{
    let raw = raw_of_line(l);
    let blk = st.doc.blocks.last();
    let st2 = spec_step(st, l);
    assert(block_levels_le(blk, b));
    lemma_header_indent_le(st.doc, raw.num_indent, b);
    lemma_bullet_indent_le(blk, raw.num_indent, b);
    lemma_find_last_of_type_in(blk.lines, LineType::Text);
    assert forall|i: int| 0 <= i < st2.doc.blocks.len() implies block_levels_le(
        #[trigger] st2.doc.blocks[i],
        b + 1,
    ) by {
        if i < st.doc.blocks.len() {
            assert(block_levels_le(st.doc.blocks[i], b));
            if i == st.doc.blocks.len() - 1 {
                assert forall|j: int| 0 <= j < st2.doc.blocks[i].lines.len() implies (
                #[trigger] st2.doc.blocks[i].lines[j]).indent_level <= b + 1 by {
                    if j < blk.lines.len() {
                        assert(blk.lines[j].indent_level <= b);
                    }
                }
            }
        }
    }
}

/// After `n` lines, every stored level is below `n`.
pub proof fn lemma_run_levels(ls: Seq<Seq<char>>, n: int)
    ensures
        doc_levels_le(spec_run(ls, n).doc, n - 1),
    decreases n,
{
    if n <= 0 {
        let d = init_state().doc;
        assert forall|i: int| 0 <= i < d.blocks.len() implies block_levels_le(
            #[trigger] d.blocks[i],
            n - 1,
        ) by {
            assert(d.blocks[i] == d.blocks[0]);
        }
    } else {
        lemma_run_levels(ls, n - 1);
        lemma_run_wf(ls, n - 1);
        if n == 1 {
            lemma_step_levels(spec_run(ls, 0), ls[0], -1);
            lemma_doc_levels_le_mono(spec_run(ls, 1).doc, 0, n - 1);
        } else {
            lemma_step_levels(spec_run(ls, n - 1), ls[n - 1], n - 2);
        }
    }
}

/// Determines whether the given header line is a child, sibling or parent of
/// the previous block's header, and so its canonical indent level.
pub fn determine_new_header_indent(document: &Document, raw_line: &RawLine) -> (r: usize)
    requires
        is_header_line(raw_line@.trimmed),
        document@.blocks.len() > 0,
        doc_levels_le(document@, usize::MAX as int - 1),
    ensures
        r as nat == header_indent_spec(document@, raw_line@.num_indent),
{
    proof {
        assert(block_levels_le(document@.blocks[document@.blocks.len() - 1], usize::MAX as int
            - 1));
    }
    let previous_block = document.last_block();
    let p = previous_block.raw_header_indent();
    if p == raw_line.num_indent {
        previous_block.contents_indent_level().saturating_sub(1)
    } else if p > raw_line.num_indent {
        match document.find_latest_block_with_raw_indent(raw_line.num_indent) {
            Some(block) => {
                proof {
                    lemma_find_last_block_with_raw_in(document@.blocks, raw_line@.num_indent);
                    let j = choose|j: int|
                        0 <= j < document@.blocks.len() && document@.blocks[j] == block@;
                    assert(block_levels_le(document@.blocks[j], usize::MAX as int - 1));
                }
                block.contents_indent_level().saturating_sub(1)
            },
            None => 0,
        }
    } else {
        previous_block.contents_indent_level()
    }
}

/// Determines the canonical indent level of a new list item against the
/// current block's previous list items and body lines.
pub fn determine_new_bullet_point_indent(current_block: &Block, raw_line: &RawLine) -> (r: usize)
    requires
        is_list_line(raw_line@.trimmed),
        block_levels_le(current_block@, usize::MAX as int - 1),
    ensures
        r as nat == bullet_indent_spec(current_block@, raw_line@.num_indent),
{
    let previous_list_item = match current_block.find_previous_of(LineType::ListBulletPoint) {
        Some(l) => Some(l),
        None => current_block.find_previous_of(LineType::ListTodoItem),
    };
    match previous_list_item {
        Some(previous) => {
            if previous.original_raw.num_indent == raw_line.num_indent {
                previous.indent_level
            } else if previous.original_raw.num_indent > raw_line.num_indent {
                match current_block.find_latest_line_with_raw_indent(raw_line.num_indent) {
                    Some(l) => {
                        proof {
                            lemma_find_last_with_raw_in(
                                current_block@.lines,
                                raw_line@.num_indent,
                            );
                        }
                        l.indent_level
                    },
                    None => current_block.contents_indent_level(),
                }
            } else {
                proof {
                    lemma_find_last_of_type_in(current_block@.lines, LineType::ListBulletPoint);
                    lemma_find_last_of_type_in(current_block@.lines, LineType::ListTodoItem);
                }
                previous.indent_level + 1
            }
        },
        None => match current_block.find_previous_of(LineType::Text) {
            Some(t) => {
                proof {
                    lemma_find_last_of_type_in(current_block@.lines, LineType::Text);
                }
                t.indent_level
            },
            None => current_block.contents_indent_level(),
        },
    }
}

/// Resolves a plain line of text: as the continuation of a list item it
/// directly follows, or as block contents at the block's contents level.
pub fn parse_text_line(current_block: &Block, raw_line: RawLine) -> (r: FormattedLine)
    requires
        block_levels_le(current_block@, usize::MAX as int - 1),
    ensures
        r@ == text_line_spec(current_block@, raw_line@),
{
    let continue_list = match current_block.last_line() {
        Some(previous_line) => previous_line.is_list_item() && !raw_line.is_empty(),
        None => false,
    };
    if continue_list {
        let level = match current_block.last_line() {
            Some(previous_line) => previous_line.indent_level,
            None => 0,
        };
        let contents = String::from_str(raw_line.trimmed.as_str());
        FormattedLine {
            indent_level: level,
            line_type: LineType::ListContinuousLine,
            contents,
            original_raw: raw_line,
        }
    } else {
        FormattedLine::from_raw(raw_line, current_block.contents_indent_level())
    }
}

/// The parser's only persistent cross-line state besides the document: the
/// two-state fence mode, holding the base indent captured on entry.
#[derive(Clone, Copy)]
enum Context {
    Normal,
    HandlingFencedFiletype { base_indent: usize },
}

impl View for Context {
    type V = Option<nat>;

    closed spec fn view(&self) -> Option<nat> {
        match self {
            Context::Normal => None,
            Context::HandlingFencedFiletype { base_indent } => Some(*base_indent as nat),
        }
    }
}

/// Parses the lines of `contents`, determining the type of each line
/// (header, bullet point list, etc.) and the canonical indenting each line
/// needs to get.
pub fn parse_document(contents: &str) -> (doc: Document)
    ensures
        doc@ == parse_spec(contents@),
        doc_wf(doc@),
{
    let lines = crate::text::split_to_lines(contents);
    let ghost ls = split_lines_spec(contents@);
    let mut document = Document::new();
    let mut context = Context::Normal;
    proof {
        assert(document@ =~~= init_state().doc);
    }
    let n = lines.len();
    let mut i: usize = 0;
    while i < n
        invariant
            0 <= i <= n,
            n == lines.len(),
            lines@.map_values(|x: String| x@) == ls,
            ls == split_lines_spec(contents@),
            document@ == spec_run(ls, i as int).doc,
            context@ == spec_run(ls, i as int).fence,
        decreases n - i,
    {
        proof {
            lemma_run_wf(ls, i as int);
            lemma_run_levels(ls, i as int);
            lemma_doc_levels_le_mono(document@, i as int - 1, usize::MAX as int - 1);
            assert(block_levels_le(document@.blocks[document@.blocks.len() - 1], usize::MAX
                as int - 1));
        }
        let raw_line = RawLine::from_string(lines[i].as_str());
        proof {
            assert(lines@.map_values(|x: String| x@)[i as int] == lines@[i as int]@);
            assert(raw_line@ == raw_of_line(ls[i as int]));
        }
        let ghost st = spec_run(ls, i as int);
        if raw_line.contains_marker() {
            // A marker for a fenced filetype: until the marker is repeated,
            // the following lines are preformatted.
            context = match context {
                Context::Normal => Context::HandlingFencedFiletype {
                    base_indent: raw_line.num_indent,
                },
                Context::HandlingFencedFiletype { .. } => Context::Normal,
            };
            let line = parse_text_line(document.last_block(), raw_line);
            document.push_line(line);
        } else {
            match context {
                Context::HandlingFencedFiletype { base_indent } => {
                    // Part of a preformatted range: preserve the indenting
                    // the line has beyond the fence's base indent.
                    let level = document.last_block().contents_indent_level();
                    let mut pre = crate::text::make_spaces(
                        raw_line.num_indent.saturating_sub(base_indent),
                    );
                    pre.append(raw_line.trimmed.as_str());
                    let line = FormattedLine {
                        indent_level: level,
                        line_type: LineType::Preformatted,
                        contents: pre,
                        original_raw: raw_line,
                    };
                    document.push_line(line);
                },
                Context::Normal => {
                    if raw_line.is_header() {
                        // A header starts a new block.
                        let indent_level = determine_new_header_indent(&document, &raw_line);
                        let header = FormattedLine::from_raw(raw_line, indent_level);
                        document.add_block(Block::new(header));
                    } else if raw_line.is_list_item() {
                        // The start of a new list, or the continuation of
                        // one.
                        let indent_level = determine_new_bullet_point_indent(
                            document.last_block(),
                            &raw_line,
                        );
                        let line = FormattedLine::from_raw(raw_line, indent_level);
                        document.push_line(line);
                    } else {
                        // A normal line of text, or the continuation of a
                        // line-wrapped list item.
                        let line = parse_text_line(document.last_block(), raw_line);
                        document.push_line(line);
                    }
                },
            }
        }
        proof {
            assert(document@ =~~= spec_step(st, ls[i as int]).doc);
            assert(context@ == spec_step(st, ls[i as int]).fence);
            assert(spec_run(ls, i as int + 1) == spec_step(st, ls[i as int]));
        }
        i = i + 1;
    }
    proof {
        lemma_run_wf(ls, n as int);
    }
    document
}

} // verus!
