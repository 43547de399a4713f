//! Re-parsing a rendered document. Rendering writes each resolved line as
//! its indent (spaces) followed by its contents; this module proves that
//! parsing that output again reproduces the document's block structure and
//! every line's classification. (The indent levels themselves are not
//! always reproduced: a replayed backward indent lookup can resolve
//! against different raw indents after rendering.)

use vstd::prelude::*;

use crate::document::BlockModel;
use crate::document::DocModel;
use crate::document::contents_level_spec;
use crate::document::doc_push_line;
use crate::line::LineModel;
use crate::line::classify;
use crate::line::from_raw_spec;
use crate::line::is_header_line;
use crate::line::is_list_line;
use crate::line::is_marker_line;
use crate::line::raw_of_line;
use crate::parsing::ParseState;
use crate::parsing::bullet_indent_spec;
use crate::parsing::header_indent_spec;
use crate::parsing::preformatted_spec;
use crate::parsing::spec_run;
use crate::parsing::spec_step;
use crate::parsing::text_line_spec;
use crate::text::is_ws_char;
use crate::text::lemma_leading_ws_is;
use crate::text::lemma_trailing_ws;
use crate::text::lemma_trim_left_pad;
use crate::text::lemma_trim_trimmed;
use crate::text::spaces;
use crate::text::trailing_ws;
use crate::text::trim_spec;

verus! {

/// The line (header or body) that consuming `l` in state `st` adds to the
/// document.
pub open spec fn step_line(st: ParseState, l: Seq<char>) -> LineModel {
    let raw = raw_of_line(l);
    let blk = st.doc.blocks.last();
    match st.fence {
        Some(base) => {
            if is_marker_line(raw.trimmed) {
                text_line_spec(blk, raw)
            } else {
                preformatted_spec(raw, base, contents_level_spec(blk))
            }
        },
        None => {
            if is_marker_line(raw.trimmed) {
                text_line_spec(blk, raw)
            } else if is_header_line(raw.trimmed) {
                from_raw_spec(raw, header_indent_spec(st.doc, raw.num_indent))
            } else if is_list_line(raw.trimmed) {
                from_raw_spec(raw, bullet_indent_spec(blk, raw.num_indent))
            } else {
                text_line_spec(blk, raw)
            }
        },
    }
}

/// How a resolved line is rendered back to text: its indent level in
/// indentation units of two spaces, followed by its contents.
pub open spec fn rendered_line(l: LineModel) -> Seq<char> {
    spaces(2 * l.indent_level as int) + l.contents
}

/// The rendering of a parse of `ls`, line by line: the i-th rendered line
/// is the rendering of the line that consuming `ls[i]` added.
pub open spec fn rendered_lines(ls: Seq<Seq<char>>) -> Seq<Seq<char>> {
    Seq::new(ls.len(), |i: int| rendered_line(step_line(spec_run(ls, i), ls[i])))
}

/// Two line sequences of equal length carrying the same classifications.
pub open spec fn lines_types_eq(a: Seq<LineModel>, b: Seq<LineModel>) -> bool {
    &&& a.len() == b.len()
    &&& forall|k: int| 0 <= k < a.len() ==> (#[trigger] a[k]).line_type == b[k].line_type
}

/// Two blocks with the same shape: headers present together, and body
/// lines matching in number and classification.
pub open spec fn block_skeleton_eq(a: BlockModel, b: BlockModel) -> bool {
    &&& (a.header is Some <==> b.header is Some)
    &&& lines_types_eq(a.lines, b.lines)
}

/// Two documents with the same structure: the same blocks, each with the
/// same shape.
pub open spec fn skeleton_eq(d1: DocModel, d2: DocModel) -> bool {
    &&& d1.blocks.len() == d2.blocks.len()
    &&& forall|j: int|
        0 <= j < d1.blocks.len() ==> block_skeleton_eq(#[trigger] d1.blocks[j], d2.blocks[j])
}

proof fn lemma_push_skeleton(d1: DocModel, d2: DocModel, a: LineModel, b: LineModel)
    requires
        skeleton_eq(d1, d2),
        d1.blocks.len() > 0,
        a.line_type == b.line_type,
    ensures
        skeleton_eq(doc_push_line(d1, a), doc_push_line(d2, b)),
{
    let e1 = doc_push_line(d1, a);
    let e2 = doc_push_line(d2, b);
    let n = d1.blocks.len();
    assert(block_skeleton_eq(d1.blocks[n - 1], d2.blocks[n - 1]));
    assert forall|j: int| 0 <= j < e1.blocks.len() implies block_skeleton_eq(
        #[trigger] e1.blocks[j],
        e2.blocks[j],
    ) by {
        assert(block_skeleton_eq(d1.blocks[j], d2.blocks[j]));
        if j == n - 1 {
            assert forall|k: int| 0 <= k < e1.blocks[j].lines.len() implies (
            #[trigger] e1.blocks[j].lines[k]).line_type == e2.blocks[j].lines[k].line_type by {
                if k < d1.blocks[j].lines.len() {
                    assert(d1.blocks[j].lines[k].line_type == d2.blocks[j].lines[k].line_type);
                }
            }
        }
    }
}

proof fn lemma_add_block_skeleton(d1: DocModel, d2: DocModel, h1: LineModel, h2: LineModel)
    requires
        skeleton_eq(d1, d2),
    ensures
        skeleton_eq(
            DocModel {
                blocks: d1.blocks.push(
                    BlockModel { header: Some(h1), lines: Seq::<LineModel>::empty() },
                ),
            },
            DocModel {
                blocks: d2.blocks.push(
                    BlockModel { header: Some(h2), lines: Seq::<LineModel>::empty() },
                ),
            },
        ),
{
    let e1 = DocModel {
        blocks: d1.blocks.push(BlockModel { header: Some(h1), lines: Seq::<LineModel>::empty() }),
    };
    let e2 = DocModel {
        blocks: d2.blocks.push(BlockModel { header: Some(h2), lines: Seq::<LineModel>::empty() }),
    };
    assert forall|j: int| 0 <= j < e1.blocks.len() implies block_skeleton_eq(
        #[trigger] e1.blocks[j],
        e2.blocks[j],
    ) by {
        if j < d1.blocks.len() {
            assert(block_skeleton_eq(d1.blocks[j], d2.blocks[j]));
        }
    }
}

/// What trimming the rendering of the line added for `l` gives: for a
/// header, a line that again opens a header; for everything else, exactly
/// the trimmed content of `l` itself.
proof fn lemma_rendered_line_trim(st: ParseState, l: Seq<char>)
    ensures
        ({
            let t1 = trim_spec(l);
            let t2 = trim_spec(rendered_line(step_line(st, l)));
            if st.fence is None && !is_marker_line(t1) && is_header_line(t1) {
                is_header_line(t2) && !is_marker_line(t2) && !is_list_line(t2)
            } else {
                t2 == t1
            }
        }),
{
    let t1 = trim_spec(l);
    let raw = raw_of_line(l);
    let a = step_line(st, l);
    lemma_trim_trimmed(l);
    if st.fence is None && !is_marker_line(t1) && is_header_line(t1) {
        // contents = "# " + header text; it begins with the header marker
        // and has no leading whitespace, so trimming keeps that first
        // character.
        let c = a.contents;
        let s = rendered_line(a);
        reveal_strlit("# ");
        assert(c[0] == '#');
        assert(c.len() >= 2);
        lemma_trim_left_pad(2 * a.indent_level as int, c);
        assert(trim_spec(s) == trim_spec(c));
        lemma_leading_ws_is(c, 0);
        lemma_trailing_ws(c);
        let tw = trailing_ws(c);
        if tw == c.len() {
            assert(is_ws_char(c[0]));
        }
        assert(tw < c.len());
        let t2 = trim_spec(c);
        assert(t2 == c.subrange(0, c.len() - tw));
        assert(t2.len() > 0);
        assert(t2[0] == '#');
    } else {
        // In every other case the line's contents is a whitespace run
        // followed by the trimmed content of `l` itself.
        match st.fence {
            Some(base) => {
                if is_marker_line(raw.trimmed) {
                    assert(a.contents == t1);
                    lemma_trim_left_pad(2 * a.indent_level as int, a.contents);
                } else {
                    assert(a.contents == spaces(
                        crate::parsing::indent_excess(raw.num_indent, base),
                    ) + t1);
                    lemma_trim_left_pad(2 * a.indent_level as int, a.contents);
                    lemma_trim_left_pad(
                        crate::parsing::indent_excess(raw.num_indent, base),
                        t1,
                    );
                }
            },
            None => {
                assert(a.contents == t1);
                lemma_trim_left_pad(2 * a.indent_level as int, a.contents);
            },
        }
    }
}

/// LAW (idempotence of structure): parsing the rendered output of a prior
/// parse reproduces the document's structure exactly: the same blocks, and
/// in each block the same body lines with the same classification each.
/// (The levels themselves are reproduced on well-nested input but not on
/// every input: a backward lookup of a raw indent may resolve differently
/// against the rendered indents.)
pub proof fn lemma_reparse_preserves_structure(ls: Seq<Seq<char>>, n: int)
    requires
        n <= ls.len(),
    ensures
        skeleton_eq(spec_run(ls, n).doc, spec_run(rendered_lines(ls), n).doc),
        spec_run(ls, n).fence is Some <==> spec_run(rendered_lines(ls), n).fence is Some,
    decreases n,
{
    let rl = rendered_lines(ls);
    if n <= 0 {
        let d = spec_run(ls, n).doc;
        assert forall|j: int| 0 <= j < d.blocks.len() implies block_skeleton_eq(
            #[trigger] d.blocks[j],
            d.blocks[j],
        ) by {}
    } else {
        lemma_reparse_preserves_structure(ls, n - 1);
        crate::parsing::lemma_run_wf(ls, n - 1);
        crate::parsing::lemma_run_wf(rl, n - 1);
        let st1 = spec_run(ls, n - 1);
        let st2 = spec_run(rl, n - 1);
        let l = ls[n - 1];
        let t1 = trim_spec(l);
        let raw1 = raw_of_line(l);
        let a = step_line(st1, l);
        assert(rl[n - 1] == rendered_line(a));
        lemma_rendered_line_trim(st1, l);
        let r = rl[n - 1];
        let raw2 = raw_of_line(r);
        let blk1 = st1.doc.blocks.last();
        let blk2 = st2.doc.blocks.last();
        let nb = st1.doc.blocks.len();
        assert(block_skeleton_eq(st1.doc.blocks[nb - 1], st2.doc.blocks[nb - 1]));
        assert(blk1 == st1.doc.blocks[nb - 1]);
        assert(blk2 == st2.doc.blocks[nb - 1]);
        if blk1.lines.len() > 0 {
            assert(blk1.lines[blk1.lines.len() - 1].line_type == blk2.lines[blk2.lines.len()
                - 1].line_type);
        }
        match st1.fence {
            Some(base) => {
                if is_marker_line(t1) {
                    assert(text_line_spec(blk1, raw1).line_type == text_line_spec(
                        blk2,
                        raw2,
                    ).line_type);
                    lemma_push_skeleton(
                        st1.doc,
                        st2.doc,
                        text_line_spec(blk1, raw1),
                        text_line_spec(blk2, raw2),
                    );
                } else {
                    lemma_push_skeleton(
                        st1.doc,
                        st2.doc,
                        step_line(st1, l),
                        step_line(st2, r),
                    );
                }
            },
            None => {
                if is_marker_line(t1) {
                    assert(text_line_spec(blk1, raw1).line_type == text_line_spec(
                        blk2,
                        raw2,
                    ).line_type);
                    lemma_push_skeleton(
                        st1.doc,
                        st2.doc,
                        text_line_spec(blk1, raw1),
                        text_line_spec(blk2, raw2),
                    );
                } else if is_header_line(t1) {
                    lemma_add_block_skeleton(
                        st1.doc,
                        st2.doc,
                        from_raw_spec(raw1, header_indent_spec(st1.doc, raw1.num_indent)),
                        from_raw_spec(raw2, header_indent_spec(st2.doc, raw2.num_indent)),
                    );
                } else if is_list_line(t1) {
                    assert(classify(raw1.trimmed) == classify(raw2.trimmed));
                    lemma_push_skeleton(
                        st1.doc,
                        st2.doc,
                        from_raw_spec(raw1, bullet_indent_spec(blk1, raw1.num_indent)),
                        from_raw_spec(raw2, bullet_indent_spec(blk2, raw2.num_indent)),
                    );
                } else {
                    assert(text_line_spec(blk1, raw1).line_type == text_line_spec(
                        blk2,
                        raw2,
                    ).line_type);
                    lemma_push_skeleton(
                        st1.doc,
                        st2.doc,
                        text_line_spec(blk1, raw1),
                        text_line_spec(blk2, raw2),
                    );
                }
            },
        }
        assert(spec_run(ls, n) == spec_step(st1, l));
        assert(spec_run(rl, n) == spec_step(st2, r));
    }
}

} // verus!
