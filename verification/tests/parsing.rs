use outline_indent::parse_document;
use outline_indent::Document;
use outline_indent::LineType;

/// Renders a parsed document back to text: every line as two spaces per
/// indent level followed by its contents, in document order.
fn render(doc: &Document) -> String {
    let mut out: Vec<String> = Vec::new();
    for block in &doc.blocks {
        if let Some(header) = &block.header {
            out.push(format!("{}{}", "  ".repeat(header.indent_level), header.contents));
        }
        for line in &block.lines {
            out.push(format!("{}{}", "  ".repeat(line.indent_level), line.contents));
        }
    }
    out.join("\n")
}

/// All (indent level, line type) assignments of a document, in order.
fn assignments(doc: &Document) -> Vec<(usize, LineType)> {
    let mut out = Vec::new();
    for block in &doc.blocks {
        if let Some(header) = &block.header {
            out.push((header.indent_level, header.line_type));
        }
        for line in &block.lines {
            out.push((line.indent_level, line.line_type));
        }
    }
    out
}

/// All body lines of the document, flattened in order.
fn body_lines(doc: &Document) -> Vec<(usize, LineType, String)> {
    let mut out = Vec::new();
    for block in &doc.blocks {
        for line in &block.lines {
            out.push((line.indent_level, line.line_type, line.contents.clone()));
        }
    }
    out
}

#[test]
fn scenario_title_with_nested_list() {
    let doc = parse_document("# Title\n- item one\n  - sub item\n- item two");
    assert_eq!(doc.blocks.len(), 2);
    let block = &doc.blocks[1];
    let header = block.header.as_ref().unwrap();
    assert_eq!(header.indent_level, 0);
    assert_eq!(header.line_type, LineType::Header);
    assert_eq!(header.contents, "# Title");
    assert_eq!(block.lines.len(), 3);
    assert_eq!(block.lines[0].indent_level, 1);
    assert_eq!(block.lines[1].indent_level, 2);
    assert_eq!(block.lines[2].indent_level, 1);
    assert_eq!(block.lines[0].line_type, LineType::ListBulletPoint);
    assert_eq!(block.lines[1].line_type, LineType::ListBulletPoint);
    assert_eq!(block.lines[2].line_type, LineType::ListBulletPoint);
    assert_eq!(block.lines[0].contents, "- item one");
}

#[test]
fn scenario_header_child_and_ancestor_lookup() {
    let doc = parse_document("# A\n## B\n# C");
    assert_eq!(doc.blocks.len(), 4);
    let a = doc.blocks[1].header.as_ref().unwrap();
    let b = doc.blocks[2].header.as_ref().unwrap();
    let c = doc.blocks[3].header.as_ref().unwrap();
    assert_eq!(a.indent_level, 0);
    assert_eq!(b.indent_level, 1);
    assert_eq!(c.indent_level, 0);
    assert_eq!(a.contents, "# A");
    assert_eq!(b.contents, "# B");
    assert_eq!(c.contents, "# C");
}

#[test]
fn scenario_fence_preserves_relative_indent() {
    let doc = parse_document("# H\n  ```\n    code\n  ```");
    let block = &doc.blocks[1];
    assert_eq!(block.lines.len(), 3);
    assert_eq!(block.lines[0].line_type, LineType::Text);
    let inner = &block.lines[1];
    assert_eq!(inner.line_type, LineType::Preformatted);
    assert_eq!(inner.indent_level, 1);
    assert_eq!(inner.contents, "  code");
}

#[test]
fn scenario_continuation_line_follows_bullet() {
    let doc = parse_document("# T\n- a\n  - b\nwrapped words");
    let block = &doc.blocks[1];
    assert_eq!(block.lines.len(), 3);
    assert_eq!(block.lines[1].indent_level, 2);
    let cont = &block.lines[2];
    assert_eq!(cont.line_type, LineType::ListContinuousLine);
    assert_eq!(cont.indent_level, 2);
    assert_eq!(cont.contents, "wrapped words");
}

#[test]
fn list_growth_is_clamped_to_one_step() {
    let doc = parse_document("# T\n- a\n        - b");
    let block = &doc.blocks[1];
    assert_eq!(block.lines[0].indent_level, 1);
    assert_eq!(block.lines[1].indent_level, 2);
}

#[test]
fn list_shrink_replays_recorded_indent() {
    let doc = parse_document("# T\n- a\n  - b\n    - c\n  - d\n- e");
    let block = &doc.blocks[1];
    let levels: Vec<usize> = block.lines.iter().map(|l| l.indent_level).collect();
    assert_eq!(levels, vec![1, 2, 3, 2, 1]);
}

#[test]
fn list_shrink_to_unseen_indent_starts_fresh() {
    let doc = parse_document("# T\n    - a\n      - b\n  - c");
    let block = &doc.blocks[1];
    let levels: Vec<usize> = block.lines.iter().map(|l| l.indent_level).collect();
    assert_eq!(levels, vec![1, 2, 1]);
}

#[test]
fn sibling_headers_share_level() {
    let doc = parse_document("# A\nsome text\n# B\n# C");
    let a = doc.blocks[1].header.as_ref().unwrap();
    let b = doc.blocks[2].header.as_ref().unwrap();
    let c = doc.blocks[3].header.as_ref().unwrap();
    assert_eq!(a.indent_level, b.indent_level);
    assert_eq!(b.indent_level, c.indent_level);
}

#[test]
fn deeper_marker_run_makes_child_header() {
    let doc = parse_document("# A\n## B\n### C\n## D");
    let levels: Vec<usize> =
        doc.blocks[1..].iter().map(|b| b.header.as_ref().unwrap().indent_level).collect();
    assert_eq!(levels, vec![0, 1, 2, 1]);
}

#[test]
fn header_contents_are_normalized_behind_one_prefix() {
    let doc = parse_document("##   Deep header  ");
    let h = doc.blocks[1].header.as_ref().unwrap();
    assert_eq!(h.contents, "# Deep header");
    assert_eq!(h.indent_level, 0);
    assert_eq!(h.original_raw.num_indent, 2);
    assert_eq!(h.original_raw.trimmed, "##   Deep header");
}

#[test]
fn todo_items_are_recognized_and_nest() {
    let doc = parse_document("- [ ] buy milk\n  - [x] done thing");
    let block = &doc.blocks[0];
    assert_eq!(block.lines[0].line_type, LineType::ListTodoItem);
    assert_eq!(block.lines[1].line_type, LineType::ListTodoItem);
    assert_eq!(block.lines[0].indent_level, 0);
    assert_eq!(block.lines[1].indent_level, 1);
    assert_eq!(block.lines[0].contents, "- [ ] buy milk");
    assert_eq!(block.lines[1].contents, "- [x] done thing");
}

#[test]
fn todo_after_bullets_looks_back_to_last_bullet() {
    let doc = parse_document("# T\n- a\n  - [ ] b\n    - [ ] c");
    let block = &doc.blocks[1];
    let levels: Vec<usize> = block.lines.iter().map(|l| l.indent_level).collect();
    // The look-back prefers the most recent bullet point (level 1), so both
    // task items nest exactly one step below it.
    assert_eq!(levels, vec![1, 2, 2]);
}

#[test]
fn empty_line_breaks_continuation() {
    let doc = parse_document("# T\n- a\n\nplain");
    let block = &doc.blocks[1];
    assert_eq!(block.lines[1].line_type, LineType::Text);
    assert_eq!(block.lines[1].contents, "");
    assert_eq!(block.lines[1].indent_level, 1);
    assert_eq!(block.lines[2].line_type, LineType::Text);
    assert_eq!(block.lines[2].indent_level, 1);
}

#[test]
fn text_before_first_header_sits_at_level_zero() {
    let doc = parse_document("intro words\n# T");
    assert_eq!(doc.blocks.len(), 2);
    let lead = &doc.blocks[0];
    assert!(lead.header.is_none());
    assert_eq!(lead.lines[0].indent_level, 0);
    assert_eq!(lead.lines[0].line_type, LineType::Text);
}

#[test]
fn fence_clamps_lines_left_of_base() {
    let doc = parse_document("# H\n  ```\nwide\n  ```");
    let inner = &doc.blocks[1].lines[1];
    assert_eq!(inner.line_type, LineType::Preformatted);
    assert_eq!(inner.contents, "wide");
}

#[test]
fn fence_relative_indent_difference_matches_raw_difference() {
    let doc = parse_document("# H\n  ```\n    a\n      b\n  ```");
    let a = &doc.blocks[1].lines[1];
    let b = &doc.blocks[1].lines[2];
    assert_eq!(a.contents, "  a");
    assert_eq!(b.contents, "    b");
    let lead_a = a.contents.chars().take_while(|c| *c == ' ').count();
    let lead_b = b.contents.chars().take_while(|c| *c == ' ').count();
    assert_eq!(lead_b - lead_a, 6 - 4);
}

#[test]
fn fence_closes_and_reopens() {
    let doc = parse_document("```\ncode\n```\ntext\n```\nmore");
    let lines = body_lines(&doc);
    assert_eq!(lines[0].1, LineType::Text);
    assert_eq!(lines[1].1, LineType::Preformatted);
    assert_eq!(lines[2].1, LineType::Text);
    assert_eq!(lines[3].1, LineType::Text);
    assert_eq!(lines[4].1, LineType::Text);
    assert_eq!(lines[5].1, LineType::Preformatted);
}

#[test]
fn unterminated_fence_is_accepted() {
    let doc = parse_document("# H\n```\nstill code");
    let block = &doc.blocks[1];
    assert_eq!(block.lines[1].line_type, LineType::Preformatted);
    assert_eq!(block.lines[1].contents, "still code");
}

#[test]
fn empty_input_gives_single_empty_block() {
    let doc = parse_document("");
    assert_eq!(doc.blocks.len(), 1);
    assert!(doc.blocks[0].header.is_none());
    assert_eq!(doc.blocks[0].lines.len(), 0);
}

#[test]
fn tabs_count_as_indent_columns() {
    let doc = parse_document("# T\n- a\n\t\t- b");
    let block = &doc.blocks[1];
    assert_eq!(block.lines[0].indent_level, 1);
    assert_eq!(block.lines[1].indent_level, 2);
    assert_eq!(block.lines[1].contents, "- b");
}

#[test]
fn reparse_keeps_assignments_for_outline() {
    let input = "# Title\n- item one\n  - sub item\n- item two\n# Next\ntext";
    let first = parse_document(input);
    let second = parse_document(&render(&first));
    assert_eq!(assignments(&first), assignments(&second));
}

#[test]
fn reparse_keeps_assignments_for_fences_and_todos() {
    let input = "# H\n  ```\n    a\n      b\n  ```\n- [ ] task\n  wrapped\n## Child\n# H2";
    let first = parse_document(input);
    let second = parse_document(&render(&first));
    assert_eq!(assignments(&first), assignments(&second));
}

#[test]
fn reparse_is_stable_after_one_round() {
    let input = "intro\n# A\n- x\n      - y\n## B\nwords\n# C\n- [ ] z";
    let first = parse_document(input);
    let rendered = render(&first);
    let second = parse_document(&rendered);
    assert_eq!(render(&second), rendered);
}

#[test]
fn get_prefix_gives_each_variant_its_literal() {
    assert_eq!(LineType::Header.get_prefix(), "# ");
    assert_eq!(LineType::ListBulletPoint.get_prefix(), "- ");
    assert_eq!(LineType::ListTodoItem.get_prefix(), "- ");
    assert_eq!(LineType::Text.get_prefix(), "");
    assert_eq!(LineType::ListContinuousLine.get_prefix(), "");
    assert_eq!(LineType::Preformatted.get_prefix(), "");
}

#[test]
fn raw_line_decomposition() {
    let doc = parse_document("   - padded item   ");
    let line = &doc.blocks[0].lines[0];
    assert_eq!(line.original_raw.num_indent, 3);
    assert_eq!(line.original_raw.trimmed, "- padded item");
    assert_eq!(line.contents, "- padded item");
    assert_eq!(line.line_type, LineType::ListBulletPoint);
}

#[test]
fn reparse_keeps_structure_even_when_levels_move() {
    // Re-establishing an earlier raw indent can resolve differently against
    // the rendered indents, so levels may shift on such input -- but the
    // block structure and every line's classification are reproduced.
    let input = "# a\n## b\n### c\n###### d\n##### e\n### f";
    let first = parse_document(input);
    let second = parse_document(&render(&first));
    assert_eq!(first.blocks.len(), second.blocks.len());
    let types1: Vec<LineType> = assignments(&first).iter().map(|p| p.1).collect();
    let types2: Vec<LineType> = assignments(&second).iter().map(|p| p.1).collect();
    assert_eq!(types1, types2);
}
