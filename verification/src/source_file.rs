use vstd::prelude::*;
use vstd::string::StrSliceExecFns;

verus! {

pub type SourceFileId = u32;

/// The text of the lines `ls` joined back together with `'\n'` between
/// consecutive lines.  A sequence of lines is the line table of a text
/// exactly when joining it yields the text back and no line holds `'\n'`.
pub open spec fn joined_lines(ls: Seq<Seq<char>>) -> Seq<char>
    decreases ls.len(),
{
    if ls.len() == 0 {
        Seq::empty()
    } else if ls.len() == 1 {
        ls[0]
    } else {
        ls[0] + seq!['\n'] + joined_lines(ls.drop_first())
    }
}

/// `ls` is the (unique) line table of the text `text`.
pub open spec fn is_line_table(ls: Seq<Seq<char>>, text: Seq<char>) -> bool {
    &&& ls.len() >= 1
    &&& joined_lines(ls) == text
    &&& forall|i: int| 0 <= i < ls.len() ==> !(#[trigger] ls[i]).contains('\n')
}

proof fn lemma_joined_lines_push(ls: Seq<Seq<char>>, l: Seq<char>)
    ensures
        joined_lines(ls.push(l)) == if ls.len() == 0 {
            l
        } else {
            joined_lines(ls) + seq!['\n'] + l
        },
    decreases ls.len(),
{
    if ls.len() == 0 {
        assert(ls.push(l) =~= seq![l]);
        assert(joined_lines(seq![l]) == l);
    } else if ls.len() == 1 {
        let p = ls.push(l);
        assert(p.drop_first() =~= seq![l]);
        assert(joined_lines(seq![l]) == l);
        assert(joined_lines(p) == p[0] + seq!['\n'] + joined_lines(p.drop_first()));
        assert(p[0] == ls[0]);
        assert(joined_lines(ls) == ls[0]);
    } else {
        lemma_joined_lines_push(ls.drop_first(), l);
        assert(ls.push(l).drop_first() =~= ls.drop_first().push(l));
        assert(joined_lines(ls) == ls[0] + seq!['\n'] + joined_lines(ls.drop_first()));
        assert(joined_lines(ls.push(l)) == ls[0] + seq!['\n'] + joined_lines(
            ls.drop_first().push(l),
        ));
        assert(ls[0] + seq!['\n'] + (joined_lines(ls.drop_first()) + seq!['\n'] + l) =~= (ls[0]
            + seq!['\n'] + joined_lines(ls.drop_first())) + seq!['\n'] + l);
    }
}

/// A loaded source file: its identifier, path, full text, and 1-indexed line
/// table, derived by splitting the text on line breaks.  Immutable after
/// construction.
pub struct SourceFile {
    id: SourceFileId,
    path: String,
    contents: String,
    lines: Vec<String>,
}

impl SourceFile {
    pub closed spec fn spec_id(&self) -> SourceFileId {
        self.id
    }

    pub closed spec fn spec_path(&self) -> Seq<char> {
        self.path@
    }

    pub closed spec fn spec_contents(&self) -> Seq<char> {
        self.contents@
    }

    pub closed spec fn spec_lines(&self) -> Seq<Seq<char>> {
        self.lines@.map_values(|l: String| l@)
    }

    /// The lines are exactly the line table of the contents.
    pub open spec fn wf(&self) -> bool {
        is_line_table(self.spec_lines(), self.spec_contents())
    }

    /// Builds the file's line table by splitting its text on `'\n'`.
    pub fn new(id: SourceFileId, path: String, contents: String) -> (r: SourceFile)
        ensures
            r.wf(),
            r.spec_id() == id,
            r.spec_path() == path@,
            r.spec_contents() == contents@,
    {
        let text = contents.as_str();
        let total: usize = text.unicode_len();
        let mut lines: Vec<String> = Vec::new();
        let mut start: usize = 0;
        let mut i: usize = 0;
        while i < total
            invariant
                0 <= start <= i <= total,
                total == contents@.len(),
                text@ == contents@,
                lines@.len() == 0 ==> start == 0,
                lines@.len() > 0 ==> joined_lines(lines@.map_values(|l: String| l@)) + seq!['\n']
                    =~= contents@.subrange(0, start as int),
                forall|j: int|
                    start <= j < i ==> #[trigger] contents@[j] != '\n',
                forall|k: int|
                    0 <= k < lines@.len() ==> !(#[trigger] lines@[k]@).contains('\n'),
            decreases total - i,
        {
            let c = text.get_char(i);
            if c == '\n' {
                let piece = text.substring_char(start, i).to_owned();
                proof {
                    let lviews = lines@.map_values(|l: String| l@);
                    lemma_joined_lines_push(lviews, piece@);
                    assert(lines@.push(piece).map_values(|l: String| l@) =~= lviews.push(piece@));
                    assert(forall|j: int|
                        0 <= j < piece@.len() ==> piece@[j] == contents@[start + j]);
                    assert(!piece@.contains('\n')) by {
                        if piece@.contains('\n') {
                            let j = choose|j: int| 0 <= j < piece@.len() && piece@[j] == '\n';
                            assert(contents@[start + j] == '\n');
                        }
                    }
                    if lviews.len() == 0 {
                        assert(joined_lines(lviews.push(piece@)) == piece@);
                        assert((piece@ + seq!['\n']) =~= contents@.subrange(0, i + 1));
                    } else {
                        assert(joined_lines(lviews.push(piece@)) == joined_lines(lviews)
                            + seq!['\n'] + piece@);
                        assert((joined_lines(lviews) + seq!['\n'] + piece@) + seq!['\n']
                            =~= contents@.subrange(0, i + 1));
                    }
                }
                lines.push(piece);
                start = i + 1;
            }
            i += 1;
        }
        let piece = text.substring_char(start, total).to_owned();
        proof {
            let lviews = lines@.map_values(|l: String| l@);
            lemma_joined_lines_push(lviews, piece@);
            assert(lines@.push(piece).map_values(|l: String| l@) =~= lviews.push(piece@));
            assert(!piece@.contains('\n')) by {
                if piece@.contains('\n') {
                    let j = choose|j: int| 0 <= j < piece@.len() && piece@[j] == '\n';
                    assert(contents@[start + j] == '\n');
                }
            }
            if lviews.len() == 0 {
                assert(joined_lines(lviews.push(piece@)) =~= contents@);
            } else {
                assert(joined_lines(lviews.push(piece@)) =~= contents@);
            }
        }
        lines.push(piece);
        SourceFile { id, path, contents, lines }
    }

    pub fn contents(&self) -> (r: &String)
        ensures
            r@ == self.spec_contents(),
    {
        &self.contents
    }

    /// The 1-indexed line `line_num`, or nothing when the file has no such
    /// line.
    pub fn line(&self, line_num: usize) -> (r: Option<&String>)
        requires
            line_num >= 1,
        ensures
            match r {
                Some(l) => line_num <= self.spec_lines().len() && l@ == self.spec_lines()[
                    line_num - 1
                ],
                None => line_num > self.spec_lines().len(),
            },
    {
        if line_num <= self.lines.len() {
            Some(&self.lines[line_num - 1])
        } else {
            None
        }
    }

    pub fn id(&self) -> (r: SourceFileId)
        ensures
            r == self.spec_id(),
    {
        self.id
    }

    pub fn path(&self) -> (r: &String)
        ensures
            r@ == self.spec_path(),
    {
        &self.path
    }
}

/// A span of source text: the file it lies in, its 1-indexed line, 0-indexed
/// column, and width in characters.  Mutable only to adjust the width once a
/// span's extent becomes known.
#[derive(Clone, Copy, PartialEq, Eq, Structural, Debug)]
pub struct Location {
    source_file_id: SourceFileId,
    line: u32,
    column: u32,
    width: u32,
}

impl Location {
    pub closed spec fn spec_file_id(&self) -> SourceFileId {
        self.source_file_id
    }

    pub closed spec fn spec_line(&self) -> u32 {
        self.line
    }

    pub closed spec fn spec_column(&self) -> u32 {
        self.column
    }

    pub closed spec fn spec_width(&self) -> u32 {
        self.width
    }

    pub fn new(source_file: &SourceFile, line: usize, column: usize, width: usize) -> (r: Location)
        requires
            line <= u32::MAX,
            column <= u32::MAX,
            width <= u32::MAX,
        ensures
            r.spec_file_id() == source_file.spec_id(),
            r.spec_line() == line,
            r.spec_column() == column,
            r.spec_width() == width,
    {
        Location {
            source_file_id: source_file.id(),
            line: line as u32,
            column: column as u32,
            width: width as u32,
        }
    }

    pub fn set_width(&mut self, width: usize)
        requires
            width <= u32::MAX,
        ensures
            final(self).spec_width() == width,
            final(self).spec_file_id() == old(self).spec_file_id(),
            final(self).spec_line() == old(self).spec_line(),
            final(self).spec_column() == old(self).spec_column(),
    {
        self.width = width as u32;
    }

    pub fn file_id(&self) -> (r: SourceFileId)
        ensures
            r == self.spec_file_id(),
    {
        self.source_file_id
    }

    pub fn line(&self) -> (r: usize)
        ensures
            r == self.spec_line(),
    {
        self.line as usize
    }

    pub fn column(&self) -> (r: usize)
        ensures
            r == self.spec_column(),
    {
        self.column as usize
    }

    pub fn width(&self) -> (r: usize)
        ensures
            r == self.spec_width(),
    {
        self.width as usize
    }
}

/// A value of any kind paired with the source span it came from.  The span is
/// provenance, not identity.
#[derive(Clone, Debug)]
pub struct Located<T> {
    pub inner: T,
    pub loc: Location,
}

impl<T> Located<T> {
    pub open spec fn spec_inner(&self) -> T {
        self.inner
    }

    pub open spec fn spec_location(&self) -> Location {
        self.loc
    }

    pub fn with_location(inner: T, loc: Location) -> (r: Located<T>)
        ensures
            r.spec_inner() == inner,
            r.spec_location() == loc,
    {
        Located { inner, loc }
    }

    pub fn location(&self) -> (r: &Location)
        ensures
            *r == self.spec_location(),
    {
        &self.loc
    }

    pub fn get(&self) -> (r: &T)
        ensures
            *r == self.spec_inner(),
    {
        &self.inner
    }

    /// Applies `func` to the carried value, keeping the span.
    pub fn map<U, F: FnOnce(T) -> U>(self, func: F) -> (r: Located<U>)
        requires
            func.requires((self.spec_inner(),)),
        ensures
            r.spec_location() == self.spec_location(),
            func.ensures((self.spec_inner(),), r.spec_inner()),
    {
        Located { inner: func(self.inner), loc: self.loc }
    }

    pub fn unwrap(self) -> (r: T)
        ensures
            r == self.spec_inner(),
    {
        self.inner
    }
}

/// Lets a plain value be paired with a source span by one method call.
pub trait WithLocation: Sized {
    fn with_location(self, loc: Location) -> (r: Located<Self>)
        ensures
            r.spec_inner() == self,
            r.spec_location() == loc,
    {
        Located::with_location(self, loc)
    }
}

impl WithLocation for String {

}

impl WithLocation for u32 {

}

impl<T: WithLocation> WithLocation for Option<T> {

}

} // verus!
