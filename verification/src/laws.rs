//! Structural laws of the pass, proved against the parse model: every
//! header and list item in a parsed document carries the level the indent
//! resolution rules assign it, and the consequences of that for siblings,
//! list growth and fenced ranges.

use vstd::prelude::*;

use crate::document::BlockModel;
use crate::document::DocModel;
use crate::document::contents_level_spec;
use crate::document::doc_push_line;
use crate::document::doc_wf;
use crate::document::find_last_of_type;
use crate::document::prev_list_item_spec;
use crate::document::raw_header_indent_spec;
use crate::line::LineModel;
use crate::line::LineType;
use crate::line::RawLineModel;
use crate::line::from_raw_spec;
use crate::line::is_header_line;
use crate::line::is_list_line;
use crate::line::is_list_type;
use crate::line::is_marker_line;
use crate::line::raw_of_line;
use crate::parsing::bullet_indent_spec;
use crate::parsing::header_indent_spec;
use crate::parsing::init_state;
use crate::parsing::parse_spec;
use crate::parsing::preformatted_spec;
use crate::parsing::saturating_dec;
use crate::parsing::spec_run;
use crate::parsing::text_line_spec;
use crate::text::leading_spaces;
use crate::text::lemma_leading_spaces_of_padded;
use crate::text::lemma_trim_spec;
use crate::text::split_lines_spec;

verus! {

/// The document holding only the first `k` blocks of `d`.
pub open spec fn doc_prefix(d: DocModel, k: int) -> DocModel {
    DocModel { blocks: d.blocks.take(k) }
}

/// The block holding only the first `j` body lines of `b`.
pub open spec fn block_prefix(b: BlockModel, j: int) -> BlockModel {
    BlockModel { header: b.header, lines: b.lines.take(j) }
}

/// Block `i`'s header carries the level the header-indent rules assigned it
/// against the blocks that preceded it.
pub open spec fn header_ok(d: DocModel, i: int) -> bool
    recommends
        1 <= i < d.blocks.len(),
{
    match d.blocks[i].header {
        Some(h) => h.indent_level == header_indent_spec(doc_prefix(d, i), h.raw.num_indent),
        None => false,
    }
}

/// If line `j` of block `i` is a list item, it carries the level the
/// list-indent rules assigned it against the lines that preceded it.
pub open spec fn list_item_ok(d: DocModel, i: int, j: int) -> bool
    recommends
        0 <= i < d.blocks.len(),
        0 <= j < d.blocks[i].lines.len(),
{
    let l = d.blocks[i].lines[j];
    is_list_type(l.line_type) ==> l.indent_level == bullet_indent_spec(
        block_prefix(d.blocks[i], j),
        l.raw.num_indent,
    )
}

/// Every header and every list item of `d` carries the level the indent
/// resolution rules assign it.
pub open spec fn history_ok(d: DocModel) -> bool {
    &&& forall|i: int| 1 <= i < d.blocks.len() ==> #[trigger] header_ok(d, i)
    &&& forall|i: int, j: int|
        0 <= i < d.blocks.len() && 0 <= j < d.blocks[i].lines.len() ==> #[trigger] list_item_ok(
            d,
            i,
            j,
        )
}

proof fn lemma_push_line_history(d: DocModel, l: LineModel)
    requires
        doc_wf(d),
        history_ok(d),
        is_list_type(l.line_type) ==> l.indent_level == bullet_indent_spec(
            d.blocks.last(),
            l.raw.num_indent,
        ),
    ensures
        history_ok(doc_push_line(d, l)),
{
    let d2 = doc_push_line(d, l);
    let n = d.blocks.len();
    assert forall|i: int| 1 <= i < d2.blocks.len() implies #[trigger] header_ok(d2, i) by {
        assert(header_ok(d, i));
        assert(d2.blocks[i].header == d.blocks[i].header);
        assert(d2.blocks.take(i) =~= d.blocks.take(i));
    }
    assert forall|i: int, j: int|
        0 <= i < d2.blocks.len() && 0 <= j < d2.blocks[i].lines.len() implies #[trigger] list_item_ok(
        d2,
        i,
        j,
    ) by {
        if i < n - 1 {
            assert(list_item_ok(d, i, j));
            assert(d2.blocks[i] == d.blocks[i]);
        } else {
            assert(i == n - 1);
            let b = d.blocks[n - 1];
            let b2 = d2.blocks[n - 1];
            assert(b2.lines == b.lines.push(l));
            if j < b.lines.len() {
                assert(list_item_ok(d, i, j));
                assert(b2.lines[j] == b.lines[j]);
                assert(block_prefix(b2, j) =~= block_prefix(b, j));
            } else {
                assert(j == b.lines.len());
                assert(b2.lines[j] == l);
                assert(block_prefix(b2, j) =~= BlockModel { header: b.header, lines: b.lines });
                assert(block_prefix(b2, j) =~= d.blocks.last());
            }
        }
    }
}

proof fn lemma_add_block_history(d: DocModel, h: LineModel)
    requires
        doc_wf(d),
        history_ok(d),
        h.indent_level == header_indent_spec(d, h.raw.num_indent),
    ensures
        history_ok(
            DocModel {
                blocks: d.blocks.push(
                    BlockModel { header: Some(h), lines: Seq::<LineModel>::empty() },
                ),
            },
        ),
{
    let d2 = DocModel {
        blocks: d.blocks.push(BlockModel { header: Some(h), lines: Seq::<LineModel>::empty() }),
    };
    let n = d.blocks.len();
    assert forall|i: int| 1 <= i < d2.blocks.len() implies #[trigger] header_ok(d2, i) by {
        if i < n {
            assert(header_ok(d, i));
            assert(d2.blocks[i] == d.blocks[i]);
            assert(d2.blocks.take(i) =~= d.blocks.take(i));
        } else {
            assert(i == n);
            assert(d2.blocks[i].header == Some(h));
            assert(d2.blocks.take(i) =~= d.blocks);
            assert(doc_prefix(d2, i) =~= d);
        }
    }
    assert forall|i: int, j: int|
        0 <= i < d2.blocks.len() && 0 <= j < d2.blocks[i].lines.len() implies #[trigger] list_item_ok(
        d2,
        i,
        j,
    ) by {
        if i < n {
            assert(list_item_ok(d, i, j));
            assert(d2.blocks[i] == d.blocks[i]);
        }
    }
}

/// A resolved plain line is never a list item.
proof fn lemma_text_line_not_list(blk: BlockModel, raw: RawLineModel)
    requires
        !is_list_line(raw.trimmed),
    ensures
        !is_list_type(text_line_spec(blk, raw).line_type),
{
}

/// Every state the pass reaches satisfies the history invariant.
pub proof fn lemma_run_history(ls: Seq<Seq<char>>, n: int)
    ensures
        history_ok(spec_run(ls, n).doc),
    decreases n,
{
    crate::parsing::lemma_run_wf(ls, n);
    if n <= 0 {
        let d = init_state().doc;
        assert forall|i: int| 1 <= i < d.blocks.len() implies #[trigger] header_ok(d, i) by {}
        assert forall|i: int, j: int|
            0 <= i < d.blocks.len() && 0 <= j < d.blocks[i].lines.len() implies #[trigger] list_item_ok(
            d,
            i,
            j,
        ) by {
            assert(d.blocks[i] == d.blocks[0]);
        }
    } else {
        lemma_run_history(ls, n - 1);
        crate::parsing::lemma_run_wf(ls, n - 1);
        let st = spec_run(ls, n - 1);
        let raw = raw_of_line(ls[n - 1]);
        let blk = st.doc.blocks.last();
        match st.fence {
            Some(base) => {
                if is_marker_line(raw.trimmed) {
                    lemma_push_line_history(st.doc, text_line_spec(blk, raw));
                } else {
                    lemma_push_line_history(
                        st.doc,
                        preformatted_spec(raw, base, contents_level_spec(blk)),
                    );
                }
            },
            None => {
                if is_marker_line(raw.trimmed) {
                    lemma_text_line_not_list(blk, raw);
                    lemma_push_line_history(st.doc, text_line_spec(blk, raw));
                } else if is_header_line(raw.trimmed) {
                    lemma_add_block_history(
                        st.doc,
                        from_raw_spec(raw, header_indent_spec(st.doc, raw.num_indent)),
                    );
                } else if is_list_line(raw.trimmed) {
                    lemma_push_line_history(
                        st.doc,
                        from_raw_spec(raw, bullet_indent_spec(blk, raw.num_indent)),
                    );
                } else {
                    lemma_text_line_not_list(blk, raw);
                    lemma_push_line_history(st.doc, text_line_spec(blk, raw));
                }
            },
        }
    }
}

/// The raw indent block `i`'s header had in the source.
pub open spec fn header_raw(d: DocModel, i: int) -> nat
    recommends
        1 <= i < d.blocks.len(),
{
    raw_header_indent_spec(d.blocks[i])
}

/// The resolved indent level of block `i`'s header.
pub open spec fn header_level(d: DocModel, i: int) -> nat
    recommends
        1 <= i < d.blocks.len(),
{
    match d.blocks[i].header {
        Some(h) => h.indent_level,
        None => 0,
    }
}

/// Two consecutive headers with equal raw indent resolve to equal levels.
proof fn lemma_sibling_consecutive(d: DocModel, i: int)
    requires
        doc_wf(d),
        history_ok(d),
        2 <= i < d.blocks.len(),
        header_raw(d, i) == header_raw(d, i - 1),
    ensures
        header_level(d, i) == header_level(d, i - 1),
{
    assert(header_ok(d, i));
    let pre = doc_prefix(d, i);
    assert(pre.blocks.len() == i);
    assert(pre.blocks.last() == d.blocks[i - 1]);
    assert(d.blocks[i - 1].header is Some);
    assert(contents_level_spec(d.blocks[i - 1]) == header_level(d, i - 1) + 1);
    assert(saturating_dec(contents_level_spec(d.blocks[i - 1])) == header_level(d, i - 1));
}

/// LAW (sibling headers share level): in a parsed document, any two headers
/// with equal raw indent and no intervening header of a different raw
/// indent between them resolve to the same indent level.
pub proof fn lemma_sibling_headers_share_level(text: Seq<char>, i: int, j: int)
    requires
        1 <= i <= j < parse_spec(text).blocks.len(),
        forall|k: int|
            i <= k <= j ==> #[trigger] header_raw(parse_spec(text), k) == header_raw(
                parse_spec(text),
                i,
            ),
    ensures
        header_level(parse_spec(text), j) == header_level(parse_spec(text), i),
    decreases j - i,
{
    let ls = split_lines_spec(text);
    crate::parsing::lemma_run_wf(ls, ls.len() as int);
    lemma_run_history(ls, ls.len() as int);
    if j > i {
        lemma_sibling_headers_share_level(text, i, j - 1);
        lemma_sibling_consecutive(parse_spec(text), j);
    }
}

/// `find_last_of_type` returns the line at `j` when it matches and nothing
/// after it does.
proof fn lemma_find_last_of_type_at(lines: Seq<LineModel>, t: LineType, j: int)
    requires
        0 <= j < lines.len(),
        lines[j].line_type == t,
        forall|k: int| j < k < lines.len() ==> (#[trigger] lines[k]).line_type != t,
    ensures
        find_last_of_type(lines, t) == Some(lines[j]),
    decreases lines.len(),
{
    if j == lines.len() - 1 {
    } else {
        assert(lines.last().line_type != t);
        lemma_find_last_of_type_at(lines.drop_last(), t, j);
        assert(lines.drop_last()[j] == lines[j]);
    }
}

/// `find_last_of_type` returns nothing when nothing matches.
proof fn lemma_find_last_of_type_none(lines: Seq<LineModel>, t: LineType)
    requires
        forall|k: int| 0 <= k < lines.len() ==> (#[trigger] lines[k]).line_type != t,
    ensures
        find_last_of_type(lines, t) is None,
    decreases lines.len(),
{
    if lines.len() > 0 {
        lemma_find_last_of_type_none(lines.drop_last(), t);
    }
}

/// LAW (monotonic single-step list growth): in a parsed document, when two
/// list items follow each other in a block (no list item between them), the
/// earlier one is the one the list rules look back to (it is a bullet
/// point, or no bullet point precedes the later one in the block), and the
/// later one's raw indent exceeds the earlier one's, then the later one
/// sits exactly one level deeper — however many raw columns were added.
pub proof fn lemma_list_growth_single_step(text: Seq<char>, i: int, j1: int, j2: int)
    requires
        0 <= i < parse_spec(text).blocks.len(),
        0 <= j1 < j2 < parse_spec(text).blocks[i].lines.len(),
        is_list_type(parse_spec(text).blocks[i].lines[j1].line_type),
        is_list_type(parse_spec(text).blocks[i].lines[j2].line_type),
        forall|k: int|
            j1 < k < j2 ==> !is_list_type(
                (#[trigger] parse_spec(text).blocks[i].lines[k]).line_type,
            ),
        parse_spec(text).blocks[i].lines[j1].line_type == LineType::ListBulletPoint || (forall|
            k: int,
        |
            0 <= k < j2 ==> (#[trigger] parse_spec(text).blocks[i].lines[k]).line_type
                != LineType::ListBulletPoint),
        parse_spec(text).blocks[i].lines[j2].raw.num_indent > parse_spec(
            text,
        ).blocks[i].lines[j1].raw.num_indent,
    ensures
        parse_spec(text).blocks[i].lines[j2].indent_level == parse_spec(
            text,
        ).blocks[i].lines[j1].indent_level + 1,
{
    let ls = split_lines_spec(text);
    crate::parsing::lemma_run_wf(ls, ls.len() as int);
    lemma_run_history(ls, ls.len() as int);
    let d = parse_spec(text);
    let b = d.blocks[i];
    let pre = block_prefix(b, j2);
    assert(list_item_ok(d, i, j2));
    assert forall|k: int| 0 <= k < pre.lines.len() implies pre.lines[k] == b.lines[k] by {}
    if b.lines[j1].line_type == LineType::ListBulletPoint {
        lemma_find_last_of_type_at(pre.lines, LineType::ListBulletPoint, j1);
    } else {
        lemma_find_last_of_type_none(pre.lines, LineType::ListBulletPoint);
        assert(b.lines[j1].line_type == LineType::ListTodoItem);
        lemma_find_last_of_type_at(pre.lines, LineType::ListTodoItem, j1);
    }
    assert(prev_list_item_spec(pre.lines) == Some(b.lines[j1]));
}

/// LAW (fence relative-indent preservation): two source lines rendered
/// inside the same fenced range share the base indent captured when the
/// fence was opened; when neither line sits left of that base, the
/// difference between their rendered leading-space counts equals the
/// difference between their raw indents.
pub proof fn lemma_fence_relative_indent(
    l1: Seq<char>,
    l2: Seq<char>,
    base: nat,
    lvl1: nat,
    lvl2: nat,
)
    requires
        raw_of_line(l1).num_indent >= base,
        raw_of_line(l2).num_indent >= base,
    ensures
        leading_spaces(preformatted_spec(raw_of_line(l1), base, lvl1).contents) - leading_spaces(
            preformatted_spec(raw_of_line(l2), base, lvl2).contents,
        ) == raw_of_line(l1).num_indent - raw_of_line(l2).num_indent,
{
    lemma_trim_spec(l1);
    lemma_trim_spec(l2);
    let r1 = raw_of_line(l1);
    let r2 = raw_of_line(l2);
    assert(r1.trimmed.len() == 0 || r1.trimmed[0] != ' ');
    assert(r2.trimmed.len() == 0 || r2.trimmed[0] != ' ');
    lemma_leading_spaces_of_padded(r1.num_indent - base, r1.trimmed);
    lemma_leading_spaces_of_padded(r2.num_indent - base, r2.trimmed);
}

} // verus!
