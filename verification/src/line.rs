//! One line of the document: its raw decomposition into indentation and
//! trimmed content, its classification, and its formatted (resolved) form.

use vstd::prelude::*;

use crate::text::leading_while;
use crate::text::leading_ws;
use crate::text::lemma_leading_while;
use crate::text::lemma_leading_while_is;
use crate::text::lemma_leading_ws;
use crate::text::lemma_trim_spec;
use crate::text::trim_spec;

verus! {

/// The closed set of line classifications. Each variant carries a fixed
/// literal prefix used when rendering a line's contents.
#[derive(Clone, Copy, PartialEq, Eq, Structural, Debug)]
pub enum LineType {
    Header,
    ListBulletPoint,
    ListTodoItem,
    Text,
    ListContinuousLine,
    Preformatted,
}

/// The render prefix associated with each line classification.
pub open spec fn prefix_spec(t: LineType) -> Seq<char> {
    match t {
        LineType::Header => "# "@,
        LineType::ListBulletPoint => "- "@,
        LineType::ListTodoItem => "- "@,
        LineType::Text => ""@,
        LineType::ListContinuousLine => ""@,
        LineType::Preformatted => ""@,
    }
}

/// Whether `t` is one of the two list-item classifications.
pub open spec fn is_list_type(t: LineType) -> bool {
    t == LineType::ListBulletPoint || t == LineType::ListTodoItem
}

impl LineType {
    /// The literal prefix this classification puts before rendered contents.
    pub fn get_prefix(&self) -> (r: &'static str)
        ensures
            r@ == prefix_spec(*self),
    {
        match self {
            LineType::Header => "# ",
            LineType::ListBulletPoint => "- ",
            LineType::ListTodoItem => "- ",
            LineType::Text => "",
            LineType::ListContinuousLine => "",
            LineType::Preformatted => "",
        }
    }
}

/// A trimmed line that opens a header: it begins with the header marker.
pub open spec fn is_header_line(t: Seq<char>) -> bool {
    t.len() > 0 && t[0] == '#'
}

/// A trimmed line that starts a list item (bullet or task).
pub open spec fn is_list_line(t: Seq<char>) -> bool {
    t.len() >= 2 && t[0] == '-' && t[1] == ' '
}

/// A list item that carries a task marker after the bullet.
pub open spec fn is_todo_line(t: Seq<char>) -> bool {
    is_list_line(t) && t.len() >= 3 && t[2] == '['
}

/// A plain bullet-point list item.
pub open spec fn is_bullet_line(t: Seq<char>) -> bool {
    is_list_line(t) && !is_todo_line(t)
}

/// A trimmed line that delimits a fenced (preformatted) range.
pub open spec fn is_marker_line(t: Seq<char>) -> bool {
    t.len() >= 3 && t[0] == '`' && t[1] == '`' && t[2] == '`'
}

/// Count of leading header-marker characters of `s`.
pub open spec fn leading_hashes(s: Seq<char>) -> int {
    leading_while(s, |c: char| c == '#')
}

pub proof fn lemma_leading_hashes(s: Seq<char>)
    ensures
        0 <= leading_hashes(s) <= s.len(),
        forall|i: int| 0 <= i < leading_hashes(s) ==> s[i] == '#',
        leading_hashes(s) < s.len() ==> s[leading_hashes(s)] != '#',
{
    lemma_leading_while(s, |c: char| c == '#');
}

pub proof fn lemma_leading_hashes_is(s: Seq<char>, j: int)
    requires
        0 <= j <= s.len(),
        forall|i: int| 0 <= i < j ==> s[i] == '#',
        j < s.len() ==> s[j] != '#',
    ensures
        leading_hashes(s) == j,
{
    lemma_leading_while_is(s, |c: char| c == '#', j);
}

fn count_leading_hashes(s: &str) -> (r: usize)
    ensures
        r as int == leading_hashes(s@),
{
    let n = s.unicode_len();
    let mut i: usize = 0;
    while i < n
        invariant
            0 <= i <= n,
            n as int == s@.len(),
            forall|j: int| 0 <= j < i ==> s@[j] == '#',
        decreases n - i,
    {
        if s.get_char(i) != '#' {
            proof {
                lemma_leading_hashes_is(s@, i as int);
            }
            return i;
        }
        i = i + 1;
    }
    proof {
        lemma_leading_hashes_is(s@, n as int);
    }
    i
}

/// Mathematical model of a raw line.
#[verifier::ext_equal]
pub ghost struct RawLineModel {
    pub num_indent: nat,
    pub trimmed: Seq<char>,
}

/// The raw decomposition of one source line: its raw indent (leading
/// whitespace columns plus, for a header, the depth of its marker run) and
/// its trimmed content.
pub open spec fn raw_of_line(l: Seq<char>) -> RawLineModel {
    RawLineModel {
        num_indent: (leading_ws(l) + leading_hashes(trim_spec(l))) as nat,
        trimmed: trim_spec(l),
    }
}

/// An immutable snapshot of one input line: the count of its leading
/// indentation columns and its content with surrounding whitespace removed.
pub struct RawLine {
    pub num_indent: usize,
    pub trimmed: String,
}

impl View for RawLine {
    type V = RawLineModel;

    open spec fn view(&self) -> RawLineModel {
        RawLineModel { num_indent: self.num_indent as nat, trimmed: self.trimmed@ }
    }
}

impl RawLine {
    /// Decomposes and classifies one source line.
    pub fn from_string(line: &str) -> (r: RawLine)
        ensures
            r@ == raw_of_line(line@),
    {
        let n = line.unicode_len();
        let (lead, trimmed) = crate::text::trim_line(line);
        let h = count_leading_hashes(trimmed.as_str());
        proof {
            lemma_leading_ws(line@);
            lemma_trim_spec(line@);
            crate::text::lemma_trailing_ws(line@);
            lemma_leading_hashes(trimmed@);
        }
        RawLine { num_indent: lead + h, trimmed }
    }

    /// Whether this line opens a header.
    pub fn is_header(&self) -> (r: bool)
        ensures
            r == is_header_line(self@.trimmed),
    {
        let t = self.trimmed.as_str();
        t.unicode_len() > 0 && t.get_char(0) == '#'
    }

    /// Whether this line starts a list item (bullet point or task).
    pub fn is_list_item(&self) -> (r: bool)
        ensures
            r == is_list_line(self@.trimmed),
    {
        let t = self.trimmed.as_str();
        t.unicode_len() >= 2 && t.get_char(0) == '-' && t.get_char(1) == ' '
    }

    /// Whether this line is a task list item.
    pub fn is_todo_item(&self) -> (r: bool)
        ensures
            r == is_todo_line(self@.trimmed),
    {
        let t = self.trimmed.as_str();
        self.is_list_item() && t.unicode_len() >= 3 && t.get_char(2) == '['
    }

    /// Whether this line is a plain bullet-point item.
    pub fn is_bullet_point(&self) -> (r: bool)
        ensures
            r == is_bullet_line(self@.trimmed),
    {
        self.is_list_item() && !self.is_todo_item()
    }

    /// Whether this line delimits a fenced (preformatted) range.
    pub fn contains_marker(&self) -> (r: bool)
        ensures
            r == is_marker_line(self@.trimmed),
    {
        let t = self.trimmed.as_str();
        t.unicode_len() >= 3 && t.get_char(0) == '`' && t.get_char(1) == '`' && t.get_char(2)
            == '`'
    }

    /// Whether this line has no content at all.
    pub fn is_empty(&self) -> (r: bool)
        ensures
            r == (self@.trimmed.len() == 0),
    {
        self.trimmed.as_str().unicode_len() == 0
    }
}

/// Mathematical model of a formatted line.
#[verifier::ext_equal]
pub ghost struct LineModel {
    pub indent_level: nat,
    pub line_type: LineType,
    pub contents: Seq<char>,
    pub raw: RawLineModel,
}

/// The classification `from_raw` assigns to a trimmed line.
pub open spec fn classify(t: Seq<char>) -> LineType {
    if is_header_line(t) {
        LineType::Header
    } else if is_todo_line(t) {
        LineType::ListTodoItem
    } else if is_bullet_line(t) {
        LineType::ListBulletPoint
    } else {
        LineType::Text
    }
}

/// The text of a header line: its trimmed content with the marker run and
/// the whitespace after it removed.
pub open spec fn header_text(t: Seq<char>) -> Seq<char> {
    let u = t.subrange(leading_hashes(t), t.len() as int);
    u.subrange(leading_ws(u), u.len() as int)
}

/// The rendered contents of a line resolved by `from_raw`: headers are
/// re-rendered behind the single header prefix, everything else keeps its
/// trimmed content (whose own marker, if any, is its prefix).
pub open spec fn rendered_contents(t: Seq<char>) -> Seq<char> {
    if is_header_line(t) {
        "# "@ + header_text(t)
    } else {
        t
    }
}

/// The formatted line `from_raw` builds from a raw line and a resolved
/// indent level.
pub open spec fn from_raw_spec(raw: RawLineModel, level: nat) -> LineModel {
    LineModel {
        indent_level: level,
        line_type: classify(raw.trimmed),
        contents: rendered_contents(raw.trimmed),
        raw: raw,
    }
}

/// A raw line paired with its resolved nesting depth, classification and
/// rendered contents. Created once, when the line is resolved.
pub struct FormattedLine {
    pub indent_level: usize,
    pub line_type: LineType,
    pub contents: String,
    pub original_raw: RawLine,
}

impl View for FormattedLine {
    type V = LineModel;

    open spec fn view(&self) -> LineModel {
        LineModel {
            indent_level: self.indent_level as nat,
            line_type: self.line_type,
            contents: self.contents@,
            raw: self.original_raw@,
        }
    }
}

impl FormattedLine {
    /// Resolves a raw line at the given indent level, classifying it and
    /// rendering its contents behind the classification's prefix.
    pub fn from_raw(raw_line: RawLine, indent_level: usize) -> (r: FormattedLine)
        ensures
            r@ == from_raw_spec(raw_line@, indent_level as nat),
    {
        if raw_line.is_header() {
            let t = raw_line.trimmed.as_str();
            let n = t.unicode_len();
            let h = count_leading_hashes(t);
            proof {
                lemma_leading_hashes(t@);
            }
            let u = t.substring_char(h, n);
            let w = crate::text::count_leading_ws(u);
            proof {
                lemma_leading_ws(u@);
            }
            let rest = u.substring_char(w, n - h);
            let mut contents = String::from_str("# ");
            contents.append(rest);
            proof {
                assert(u@ =~= raw_line@.trimmed.subrange(
                    leading_hashes(raw_line@.trimmed),
                    raw_line@.trimmed.len() as int,
                ));
                assert(contents@ =~= rendered_contents(raw_line@.trimmed));
            }
            FormattedLine {
                indent_level,
                line_type: LineType::Header,
                contents,
                original_raw: raw_line,
            }
        } else if raw_line.is_todo_item() {
            let contents = String::from_str(raw_line.trimmed.as_str());
            FormattedLine {
                indent_level,
                line_type: LineType::ListTodoItem,
                contents,
                original_raw: raw_line,
            }
        } else if raw_line.is_list_item() {
            let contents = String::from_str(raw_line.trimmed.as_str());
            FormattedLine {
                indent_level,
                line_type: LineType::ListBulletPoint,
                contents,
                original_raw: raw_line,
            }
        } else {
            let contents = String::from_str(raw_line.trimmed.as_str());
            FormattedLine {
                indent_level,
                line_type: LineType::Text,
                contents,
                original_raw: raw_line,
            }
        }
    }

    /// Whether this formatted line is a list item (bullet point or task).
    pub fn is_list_item(&self) -> (r: bool)
        ensures
            r == is_list_type(self@.line_type),
    {
        self.line_type == LineType::ListBulletPoint || self.line_type == LineType::ListTodoItem
    }
}

} // verus!
