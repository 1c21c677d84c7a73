//! A drawing and its three views: rows, one text, bytes.

use crate::color::Rgb;
use vstd::prelude::*;
use vstd::string::{StrSliceExecFns, StringExecFns};
use vstd::utf8::encode_utf8;

verus! {

/// The texts one after the other.
pub open spec fn concat(parts: Seq<Seq<char>>) -> Seq<char>
    decreases parts.len(),
{
    if parts.len() == 0 {
        Seq::empty()
    } else {
        concat(parts.drop_last()) + parts.last()
    }
}

/// The lines one after the other, with a line feed between each two.
pub open spec fn join_lines(lines: Seq<Seq<char>>) -> Seq<char>
    decreases lines.len(),
{
    if lines.len() == 0 {
        Seq::empty()
    } else if lines.len() == 1 {
        lines[0]
    } else {
        join_lines(lines.drop_last()) + seq!['\n'] + lines.last()
    }
}

/// What each of the strings holds.
pub open spec fn texts_of(strings: Seq<String>) -> Seq<Seq<char>> {
    Seq::new(strings.len(), |i: int| strings[i]@)
}

/// One cell of a drawing: a symbol, and the colour it is shown in if it is
/// shown in colour.
#[derive(Clone, Copy, Debug, PartialEq, Eq)]
pub struct RenderCell {
    pub symbol: char,
    pub color: Option<Rgb>,
}

/// What each of the rows holds.
pub open spec fn cell_rows(rows: Seq<Vec<RenderCell>>) -> Seq<Seq<RenderCell>> {
    Seq::new(rows.len(), |y: int| rows[y]@)
}

/// What each of the strings of each row holds.
pub open spec fn text_rows(rows: Seq<Vec<String>>) -> Seq<Seq<Seq<char>>> {
    Seq::new(rows.len(), |y: int| texts_of(rows[y]@))
}

/// A drawing: rows of cells, and for each cell the text that shows it.
pub struct SymbolizeResult {
    cells: Vec<Vec<RenderCell>>,
    texts: Vec<Vec<String>>,
}

impl SymbolizeResult {
    /// The cells of the drawing, row by row.
    pub closed spec fn cells(self) -> Seq<Seq<RenderCell>> {
        cell_rows(self.cells@)
    }

    /// The texts that show the cells, row by row.
    pub closed spec fn cell_texts(self) -> Seq<Seq<Seq<char>>> {
        text_rows(self.texts@)
    }

    /// A drawing of these cells, shown by these texts.
    pub(crate) fn from_parts(cells: Vec<Vec<RenderCell>>, texts: Vec<Vec<String>>) -> (drawing:
        SymbolizeResult)
        ensures
            drawing.cells() == cell_rows(cells@),
            drawing.cell_texts() == text_rows(texts@),
    {
        SymbolizeResult { cells, texts }
    }

    /// The rows of the drawing as lines of text.
    pub open spec fn rows(self) -> Seq<Seq<char>> {
        Seq::new(self.cell_texts().len(), |y: int| concat(self.cell_texts()[y]))
    }

    /// The drawing as one text, a line feed between each two rows.
    pub open spec fn text(self) -> Seq<char> {
        join_lines(self.rows())
    }

    /// The drawing as the bytes of its text in UTF-8.
    pub open spec fn bytes(self) -> Seq<u8> {
        encode_utf8(self.text())
    }

    /// The three views of a drawing show the same thing: the text is the
    /// rows joined by line feeds, and the bytes are the text in UTF-8.
    pub proof fn lemma_views_agree(self)
        ensures
            self.text() == join_lines(self.rows()),
            self.bytes() == encode_utf8(join_lines(self.rows())),
            self.rows().len() == self.cell_texts().len(),
            forall|y: int|
                0 <= y < self.rows().len() ==> self.rows()[y] == concat(self.cell_texts()[y]),
    {
    }

    /// The cell at place `k` of row `y`, if the drawing has one there.
    pub fn cell(&self, y: usize, k: usize) -> (found: Option<RenderCell>)
        ensures
            found == if y < self.cells().len() && k < self.cells()[y as int].len() {
                Some(self.cells()[y as int][k as int])
            } else {
                None
            },
    {
        if y < self.cells.len() {
            let row = &self.cells[y];
            if k < row.len() {
                return Some(row[k]);
            }
        }
        None
    }

    /// The rows of the drawing, each as one string.
    pub fn to_rows(&self) -> (lines: Vec<String>)
        ensures
            texts_of(lines@) == self.rows(),
    {
        let mut lines: Vec<String> = Vec::new();
        let mut y: usize = 0;
        while y < self.texts.len()
            invariant
                y <= self.texts@.len(),
                lines@.len() == y,
                forall|i: int| 0 <= i < y ==> (#[trigger] lines@[i])@ == self.rows()[i],
            decreases self.texts@.len() - y,
        {
            let row = &self.texts[y];
            let ghost cells = texts_of(row@);
            let mut line = String::new();
            let mut k: usize = 0;
            while k < row.len()
                invariant
                    k <= row@.len(),
                    cells == texts_of(row@),
                    line@ == concat(cells.take(k as int)),
                decreases row@.len() - k,
            {
                proof {
                    assert(cells.take(k + 1).drop_last() =~= cells.take(k as int));
                }
                line.append(row[k].as_str());
                k += 1;
            }
            proof {
                assert(cells.take(k as int) =~= cells);
                assert(self.cell_texts()[y as int] == cells);
            }
            lines.push(line);
            y += 1;
        }
        assert(texts_of(lines@) =~= self.rows());
        lines
    }

    /// The drawing as one string, a line feed between each two rows.
    pub fn to_text(&self) -> (text: String)
        ensures
            text@ == self.text(),
    {
        let lines = self.to_rows();
        let ghost rows = self.rows();
        let mut text = String::new();
        let mut y: usize = 0;
        while y < lines.len()
            invariant
                y <= lines@.len(),
                texts_of(lines@) == rows,
                text@ == join_lines(rows.take(y as int)),
            decreases lines@.len() - y,
        {
            proof {
                reveal_strlit("\n");
                assert(rows.take(y + 1).drop_last() =~= rows.take(y as int));
                assert(rows[y as int] == lines@[y as int]@);
                assert("\n"@ =~= seq!['\n']);
            }
            if y > 0 {
                text.append("\n");
            }
            text.append(lines[y].as_str());
            y += 1;
        }
        assert(rows.take(y as int) =~= rows);
        text
    }

    /// The drawing as the bytes of its text in UTF-8.
    pub fn to_bytes(&self) -> (bytes: Vec<u8>)
        ensures
            bytes@ == self.bytes(),
    {
        self.to_text().as_str().as_bytes_vec()
    }
}

impl From<SymbolizeResult> for String {
    /// The drawing as one string, a line feed between each two rows.
    fn from(drawing: SymbolizeResult) -> (text: String)
        ensures
            text@ == drawing.text(),
    {
        drawing.to_text()
    }
}

// What each conversion returns is stated on `from` itself, over the views of
// the drawing. The conversions are not held to name one value for it.
impl vstd::std_specs::convert::FromSpecImpl<SymbolizeResult> for String {
    open spec fn obeys_from_spec() -> bool {
        false
    }

    open spec fn from_spec(drawing: SymbolizeResult) -> String {
        choose|text: String| text@ == drawing.text()
    }
}

impl From<SymbolizeResult> for Vec<u8> {
    /// The drawing as the bytes of its text in UTF-8.
    fn from(drawing: SymbolizeResult) -> (bytes: Vec<u8>)
        ensures
            bytes@ == drawing.bytes(),
    {
        drawing.to_bytes()
    }
}

impl vstd::std_specs::convert::FromSpecImpl<SymbolizeResult> for Vec<u8> {
    open spec fn obeys_from_spec() -> bool {
        false
    }

    open spec fn from_spec(drawing: SymbolizeResult) -> Vec<u8> {
        choose|bytes: Vec<u8>| bytes@ == drawing.bytes()
    }
}

impl From<SymbolizeResult> for Vec<String> {
    /// The rows of the drawing, each as one string.
    fn from(drawing: SymbolizeResult) -> (lines: Vec<String>)
        ensures
            texts_of(lines@) == drawing.rows(),
    {
        drawing.to_rows()
    }
}

impl vstd::std_specs::convert::FromSpecImpl<SymbolizeResult> for Vec<String> {
    open spec fn obeys_from_spec() -> bool {
        false
    }

    open spec fn from_spec(drawing: SymbolizeResult) -> Vec<String> {
        choose|lines: Vec<String>| texts_of(lines@) == drawing.rows()
    }
}

} // verus!
