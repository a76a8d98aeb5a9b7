use vstd::prelude::*;
use vstd::string::StrSliceExecFns;
use vstd::string::StringExecFns;

use crate::error::{CompilerError, Severity};
use crate::source_file::{Located, Location, SourceFile, SourceFileId};

verus! {

/// Character-wise equality of two string slices.
pub fn str_eq(a: &str, b: &str) -> (r: bool)
    ensures
        r == (a@ == b@),
{
    let la = a.unicode_len();
    let lb = b.unicode_len();
    if la != lb {
        proof {
            assert(a@ != b@);
        }
        return false;
    }
    let mut i: usize = 0;
    while i < la
        invariant
            la == a@.len(),
            la == b@.len(),
            0 <= i <= la,
            forall|j: int| 0 <= j < i ==> a@[j] == b@[j],
        decreases la - i,
    {
        if a.get_char(i) != b.get_char(i) {
            return false;
        }
        i += 1;
    }
    proof {
        assert(a@ =~= b@);
    }
    true
}

/// What kind of artifact a build produces.
#[derive(Clone, Copy, PartialEq, Eq, Structural, Debug)]
pub enum BuildKind {
    Executable,
    Object,
    SharedObject,
}

impl Default for BuildKind {
    fn default() -> (r: BuildKind)
        ensures
            r == BuildKind::Executable,
    {
        BuildKind::Executable
    }
}

/// The artifact's file extension on a unix-family system.
pub open spec fn spec_ext_unix(k: BuildKind) -> Seq<char> {
    match k {
        BuildKind::Executable => ""@,
        BuildKind::Object => ".o"@,
        BuildKind::SharedObject => ".so"@,
    }
}

/// The artifact's file extension on windows.
pub open spec fn spec_ext_windows(k: BuildKind) -> Seq<char> {
    match k {
        BuildKind::Executable => ".exe"@,
        BuildKind::Object => ".lib"@,
        BuildKind::SharedObject => ".dll"@,
    }
}

/// The artifact's file extension on the named operating system, or nothing
/// when the system is unknown.
pub open spec fn spec_os_ext(k: BuildKind, os: Seq<char>) -> Option<Seq<char>> {
    if os == "linux"@ || os == "macos"@ || os == "unix"@ {
        Some(spec_ext_unix(k))
    } else if os == "windows"@ {
        Some(spec_ext_windows(k))
    } else {
        None
    }
}

impl BuildKind {
    pub fn ext(&self, os: &str) -> (r: Option<&'static str>)
        ensures
            match r {
                Some(e) => spec_os_ext(*self, os@) == Some(e@),
                None => spec_os_ext(*self, os@) is None,
            },
    {
        if str_eq(os, "linux") || str_eq(os, "macos") || str_eq(os, "unix") {
            Some(self.ext_unix())
        } else if str_eq(os, "windows") {
            Some(self.ext_windows())
        } else {
            None
        }
    }

    pub fn ext_unix(&self) -> (r: &'static str)
        ensures
            r@ == spec_ext_unix(*self),
    {
        match self {
            BuildKind::Executable => "",
            BuildKind::Object => ".o",
            BuildKind::SharedObject => ".so",
        }
    }

    pub fn ext_windows(&self) -> (r: &'static str)
        ensures
            r@ == spec_ext_windows(*self),
    {
        match self {
            BuildKind::Executable => ".exe",
            BuildKind::Object => ".lib",
            BuildKind::SharedObject => ".dll",
        }
    }
}

/// Where the build's output goes: a name the user chose, or the default name
/// derived from the build kind.
pub enum OutputFile {
    Name(String),
    Default,
}

impl Default for OutputFile {
    fn default() -> (r: OutputFile)
        ensures
            r is Default,
    {
        OutputFile::Default
    }
}

impl OutputFile {
    /// The name of the file the build writes, on the named operating system:
    /// the chosen name, or `a` with the artifact's extension.  Nothing on an
    /// unknown system.
    pub fn to_filename(self, build_kind: &BuildKind, os: &str) -> (r: Option<String>)
        ensures
            match self {
                OutputFile::Name(f) => r == Some(f),
                OutputFile::Default => match r {
                    Some(x) => spec_os_ext(*build_kind, os@) == Some(
                        x@.skip(1),
                    ) && x@.len() >= 1 && x@[0] == 'a',
                    None => spec_os_ext(*build_kind, os@) is None,
                },
            },
    {
        match self {
            OutputFile::Name(filename) => Some(filename),
            OutputFile::Default => {
                match build_kind.ext(os) {
                    Some(e) => {
                        let mut name = String::new();
                        name.append("a");
                        name.append(e);
                        proof {
                            reveal_strlit("a");
                            assert(name@.skip(1) =~= e@);
                        }
                        Some(name)
                    },
                    None => None,
                }
            },
        }
    }
}

/// One build of a program: its name, where the output goes, what kind of
/// artifact it is, the defined tags, and the loaded source files.
pub struct Context {
    program_name: String,
    output_file: OutputFile,
    build_kind: BuildKind,
    tags: Vec<String>,
    source_files: Vec<SourceFile>,
}

impl Context {
    pub closed spec fn spec_program_name(&self) -> Seq<char> {
        self.program_name@
    }

    pub closed spec fn spec_output_file(&self) -> OutputFile {
        self.output_file
    }

    pub closed spec fn spec_build_kind(&self) -> BuildKind {
        self.build_kind
    }

    pub closed spec fn spec_tags(&self) -> Seq<String> {
        self.tags@
    }

    pub closed spec fn spec_source_files(&self) -> Seq<SourceFile> {
        self.source_files@
    }

    pub fn from_program_name(program_name: String) -> (r: Context)
        ensures
            r.spec_program_name() == program_name@,
            r.spec_output_file() is Default,
            r.spec_build_kind() == BuildKind::Executable,
            r.spec_tags().len() == 0,
            r.spec_source_files().len() == 0,
    {
        Context {
            program_name,
            output_file: OutputFile::Default,
            build_kind: BuildKind::Executable,
            tags: Vec::new(),
            source_files: Vec::new(),
        }
    }

    pub fn set_output_file(&mut self, output_file: String)
        ensures
            final(self).spec_output_file() == OutputFile::Name(output_file),
            final(self).spec_program_name() == old(self).spec_program_name(),
            final(self).spec_build_kind() == old(self).spec_build_kind(),
            final(self).spec_tags() == old(self).spec_tags(),
            final(self).spec_source_files() == old(self).spec_source_files(),
    {
        self.output_file = OutputFile::Name(output_file);
    }

    pub fn program_name(&self) -> (r: &String)
        ensures
            r@ == self.spec_program_name(),
    {
        &self.program_name
    }

    pub fn define_tag(&mut self, tag: String)
        ensures
            final(self).spec_tags() == old(self).spec_tags().push(tag),
            final(self).spec_program_name() == old(self).spec_program_name(),
            final(self).spec_output_file() == old(self).spec_output_file(),
            final(self).spec_build_kind() == old(self).spec_build_kind(),
            final(self).spec_source_files() == old(self).spec_source_files(),
    {
        self.tags.push(tag);
    }

    pub fn set_build_kind(&mut self, build_kind: BuildKind)
        ensures
            final(self).spec_build_kind() == build_kind,
            final(self).spec_program_name() == old(self).spec_program_name(),
            final(self).spec_output_file() == old(self).spec_output_file(),
            final(self).spec_tags() == old(self).spec_tags(),
            final(self).spec_source_files() == old(self).spec_source_files(),
    {
        self.build_kind = build_kind;
    }

    /// Takes more loaded source files into the registry.  A file whose
    /// identifier is already registered replaces the prior entry, as a map
    /// keyed by the identifier would; fresh identifiers are appended.
    pub fn add_source_files(&mut self, source_files: Vec<SourceFile>)
        ensures
            final(self).spec_source_files() == spec_add_files(
                old(self).spec_source_files(),
                source_files@,
            ),
            old(self).files_wf() ==> final(self).files_wf(),
            final(self).spec_program_name() == old(self).spec_program_name(),
            final(self).spec_output_file() == old(self).spec_output_file(),
            final(self).spec_build_kind() == old(self).spec_build_kind(),
            final(self).spec_tags() == old(self).spec_tags(),
    {
        let mut source_files = source_files;
        let ghost orig = self.source_files@;
        let ghost added = source_files@;
        let n = source_files.len();
        let mut i: usize = 0;
        while i < n
            invariant
                n == added.len(),
                0 <= i <= n,
                source_files@ == added.skip(i as int),
                self.source_files@ == spec_add_files(orig, added.take(i as int)),
                files_unique(orig) ==> files_unique(self.source_files@),
                self.program_name@ == old(self).spec_program_name(),
                self.output_file == old(self).spec_output_file(),
                self.build_kind == old(self).spec_build_kind(),
                self.tags@ == old(self).spec_tags(),
            decreases n - i,
        {
            let f = source_files.remove(0);
            proof {
                assert(added.skip(i as int).drop_first() =~= added.skip(i + 1));
                assert(added.skip(i as int)[0] == added[i as int]);
                assert(added.take(i as int).push(added[i as int]) =~= added.take(i + 1));
                lemma_add_files_push(orig, added.take(i as int), added[i as int]);
                if files_unique(orig) {
                    lemma_add_file_unique(self.source_files@, added[i as int]);
                }
            }
            match self.find_file_index(f.id()) {
                Some(idx) => {
                    proof {
                        lemma_find_id_lands(self.source_files@, f.spec_id());
                    }
                    self.source_files.set(idx, f);
                },
                None => {
                    self.source_files.push(f);
                },
            }
            i += 1;
        }
        proof {
            assert(added.take(n as int) =~= added);
        }
    }

    /// Whether a source file with this identifier is registered.
    pub open spec fn spec_has_file(&self, id: SourceFileId) -> bool {
        spec_find_id(self.spec_source_files(), id) is Some
    }

    /// Each identifier is registered at most once.  The constructor gives an
    /// empty registry and `add_source_files` replaces same-identifier
    /// entries, so every context built through this interface keeps it.
    pub open spec fn files_wf(&self) -> bool {
        files_unique(self.spec_source_files())
    }

    /// The index of the registered file with this identifier.
    fn find_file_index(&self, id: SourceFileId) -> (r: Option<usize>)
        ensures
            match r {
                Some(i) => spec_find_id(self.spec_source_files(), id) == Some(i as int),
                None => spec_find_id(self.spec_source_files(), id) is None,
            },
    {
        let mut j: usize = self.source_files.len();
        proof {
            assert(self.spec_source_files().take(self.spec_source_files().len() as int)
                =~= self.spec_source_files());
        }
        while j > 0
            invariant
                0 <= j <= self.spec_source_files().len(),
                spec_find_id(self.spec_source_files(), id) == spec_find_id(
                    self.spec_source_files().take(j as int),
                    id,
                ),
            decreases j,
        {
            proof {
                assert(self.spec_source_files().take(j as int).last()
                    == self.spec_source_files()[j - 1]);
                assert(self.spec_source_files().take(j as int).drop_last()
                    =~= self.spec_source_files().take(j - 1));
            }
            if self.source_files[j - 1].id() == id {
                return Some(j - 1);
            }
            j -= 1;
        }
        proof {
            assert(self.spec_source_files().take(0) =~= Seq::<SourceFile>::empty());
        }
        None
    }

    /// The registered source file with this identifier, if any.
    pub fn source_file(&self, id: SourceFileId) -> (r: Option<&SourceFile>)
        ensures
            match r {
                Some(f) => {
                    &&& f.spec_id() == id
                    &&& spec_find_id(self.spec_source_files(), id) matches Some(i)
                        && *f == self.spec_source_files()[i]
                },
                None => !self.spec_has_file(id),
            },
    {
        match self.find_file_index(id) {
            Some(i) => {
                proof {
                    lemma_find_id_lands(self.spec_source_files(), id);
                }
                Some(&self.source_files[i])
            },
            None => None,
        }
    }
}

/// No two registered files share an identifier.
pub open spec fn files_unique(fs: Seq<SourceFile>) -> bool {
    forall|i: int, j: int|
        0 <= i < j < fs.len() ==> (#[trigger] fs[i]).spec_id() != (#[trigger] fs[j]).spec_id()
}

/// The index of the file with this identifier, seen from the end of the
/// registry.
pub open spec fn spec_find_id(fs: Seq<SourceFile>, id: SourceFileId) -> Option<int>
    decreases fs.len(),
{
    if fs.len() == 0 {
        None
    } else if fs.last().spec_id() == id {
        Some(fs.len() - 1)
    } else {
        spec_find_id(fs.drop_last(), id)
    }
}

/// What registering one file does: it replaces the entry with its
/// identifier, or is appended when the identifier is fresh.
pub open spec fn spec_add_file(fs: Seq<SourceFile>, f: SourceFile) -> Seq<SourceFile> {
    match spec_find_id(fs, f.spec_id()) {
        Some(i) => fs.update(i, f),
        None => fs.push(f),
    }
}

/// What registering a batch does: each file in turn, earlier to later.
pub open spec fn spec_add_files(fs: Seq<SourceFile>, added: Seq<SourceFile>) -> Seq<SourceFile>
    decreases added.len(),
{
    if added.len() == 0 {
        fs
    } else {
        spec_add_files(spec_add_file(fs, added[0]), added.drop_first())
    }
}

/// The find walk lands on an entry bearing the identifier it looked for, and
/// `None` means no entry bears it.
pub proof fn lemma_find_id_lands(fs: Seq<SourceFile>, id: SourceFileId)
    ensures
        spec_find_id(fs, id) matches Some(i) ==> 0 <= i < fs.len() && fs[i].spec_id() == id,
        spec_find_id(fs, id) is None ==> forall|i: int|
            0 <= i < fs.len() ==> (#[trigger] fs[i]).spec_id() != id,
    decreases fs.len(),
{
    if fs.len() > 0 {
        lemma_find_id_lands(fs.drop_last(), id);
        assert(fs.last() == fs[fs.len() - 1]);
        assert(forall|i: int| 0 <= i < fs.len() - 1 ==> fs.drop_last()[i] == #[trigger] fs[i]);
    }
}

proof fn lemma_add_files_push(fs: Seq<SourceFile>, added: Seq<SourceFile>, f: SourceFile)
    ensures
        spec_add_files(fs, added.push(f)) == spec_add_file(spec_add_files(fs, added), f),
    decreases added.len(),
{
    assert(added.push(f).len() == added.len() + 1);
    assert(spec_add_files(fs, added.push(f)) == spec_add_files(
        spec_add_file(fs, added.push(f)[0]),
        added.push(f).drop_first(),
    ));
    if added.len() == 0 {
        assert(added.push(f)[0] == f);
        assert(added.push(f).drop_first() =~= Seq::<SourceFile>::empty());
        assert(spec_add_files(spec_add_file(fs, f), Seq::<SourceFile>::empty()) == spec_add_file(
            fs,
            f,
        ));
    } else {
        assert(added.push(f)[0] == added[0]);
        assert(added.push(f).drop_first() =~= added.drop_first().push(f));
        lemma_add_files_push(spec_add_file(fs, added[0]), added.drop_first(), f);
    }
}

/// Registering one file keeps identifiers unique.
proof fn lemma_add_file_unique(fs: Seq<SourceFile>, f: SourceFile)
    requires
        files_unique(fs),
    ensures
        files_unique(spec_add_file(fs, f)),
{
    lemma_find_id_lands(fs, f.spec_id());
    match spec_find_id(fs, f.spec_id()) {
        Some(i) => {
            let r = fs.update(i, f);
            assert forall|a: int, b: int|
                0 <= a < b < r.len() implies (#[trigger] r[a]).spec_id() != (
            #[trigger] r[b]).spec_id() by {
                assert(r[a] == if a == i {
                    f
                } else {
                    fs[a]
                });
                assert(r[b] == if b == i {
                    f
                } else {
                    fs[b]
                });
                assert(fs[i].spec_id() == f.spec_id());
            }
        },
        None => {
            let r = fs.push(f);
            assert forall|a: int, b: int|
                0 <= a < b < r.len() implies (#[trigger] r[a]).spec_id() != (
            #[trigger] r[b]).spec_id() by {
                if b == fs.len() {
                    assert(r[a] == fs[a]);
                    assert(r[b] == f);
                } else {
                    assert(r[a] == fs[a]);
                    assert(r[b] == fs[b]);
                }
            }
        },
    }
}

/// How one printed piece of a diagnostic is coloured.
#[derive(Clone, Copy, PartialEq, Eq, Structural, Debug)]
pub enum StyleKind {
    Plain,
    Red,
    Yellow,
    BrightYellow,
    BrightBlack,
    BrightGrey,
}

/// One piece of one printed line: its text and its colour.
pub struct Segment {
    pub style: StyleKind,
    pub text: String,
}

/// The ANSI code digits of each colour.
pub open spec fn style_code(st: StyleKind) -> Seq<char> {
    match st {
        StyleKind::Plain => ""@,
        StyleKind::Red => "31"@,
        StyleKind::Yellow => "33"@,
        StyleKind::BrightYellow => "93"@,
        StyleKind::BrightBlack => "90"@,
        StyleKind::BrightGrey => "97"@,
    }
}

/// Whether a text already begins with the ANSI escape introducer.
pub open spec fn esc_prefixed(t: Seq<char>) -> bool {
    t.len() >= 2 && t[0] == '\u{1b}' && t[1] == '['
}

/// What colorize makes of a text, for a given code: a text already carrying
/// an escape has the code merged into it; any other text is wrapped between
/// the code and a reset sequence that depends on colorize's global colour
/// state, of which nothing more can be said.
pub open spec fn ansi_wrapped(code: Seq<char>, text: Seq<char>, out: Seq<char>) -> bool {
    if esc_prefixed(text) {
        out == seq!['\u{1b}', '['] + code + seq![';'] + text.skip(2)
    } else {
        exists|rst: Seq<char>| out == seq!['\u{1b}', '['] + code + seq!['m'] + text + rst
    }
}

/// A printed piece: plain text stands as it is, coloured text is wrapped as
/// colorize wraps it.
pub open spec fn seg_decorated(st: StyleKind, text: Seq<char>, out: Seq<char>) -> bool {
    match st {
        StyleKind::Plain => out == text,
        _ => ansi_wrapped(style_code(st), text, out),
    }
}

/// Relies on colorize::AnsiColor::red: it prepends the red foreground escape
/// and appends a reset taken from colorize's global colour state; on a text
/// already starting with an escape it merges the code instead.
#[verifier::external_body]
fn style_red(s: String) -> (r: String)
    ensures
        ansi_wrapped("31"@, s@, r@),
{
    colorize::AnsiColor::red(s)
}

/// Relies on colorize::AnsiColor::yellow, as `style_red` relies on `red`.
#[verifier::external_body]
fn style_yellow(s: String) -> (r: String)
    ensures
        ansi_wrapped("33"@, s@, r@),
{
    colorize::AnsiColor::yellow(s)
}

/// Relies on colorize::AnsiColor::b_yellow, as `style_red` relies on `red`.
#[verifier::external_body]
fn style_b_yellow(s: String) -> (r: String)
    ensures
        ansi_wrapped("93"@, s@, r@),
{
    colorize::AnsiColor::b_yellow(s)
}

/// Relies on colorize::AnsiColor::b_black, as `style_red` relies on `red`.
#[verifier::external_body]
fn style_b_black(s: String) -> (r: String)
    ensures
        ansi_wrapped("90"@, s@, r@),
{
    colorize::AnsiColor::b_black(s)
}

/// Relies on colorize::AnsiColor::b_grey, as `style_red` relies on `red`.
#[verifier::external_body]
fn style_b_grey(s: String) -> (r: String)
    ensures
        ansi_wrapped("97"@, s@, r@),
{
    colorize::AnsiColor::b_grey(s)
}

/// One printed piece, coloured as its style says.
fn style_text(seg: &Segment) -> (r: String)
    ensures
        seg_decorated(seg.style, seg.text@, r@),
{
    match seg.style {
        StyleKind::Plain => seg.text.clone(),
        StyleKind::Red => style_red(seg.text.clone()),
        StyleKind::Yellow => style_yellow(seg.text.clone()),
        StyleKind::BrightYellow => style_b_yellow(seg.text.clone()),
        StyleKind::BrightBlack => style_b_black(seg.text.clone()),
        StyleKind::BrightGrey => style_b_grey(seg.text.clone()),
    }
}

/// The views of a line's segments: each piece's colour and text.
pub open spec fn seg_views(segs: Seq<Segment>) -> Seq<(StyleKind, Seq<char>)> {
    segs.map_values(|s: Segment| (s.style, s.text@))
}

/// A whole printed line is the pieces' decorations, in order, and nothing
/// else.
pub open spec fn line_decorated(segs: Seq<(StyleKind, Seq<char>)>, out: Seq<char>) -> bool
    decreases segs.len(),
{
    if segs.len() == 0 {
        out.len() == 0
    } else {
        exists|k: int|
            0 <= k <= out.len() && seg_decorated(segs[0].0, segs[0].1, #[trigger] out.subrange(0, k))
                && line_decorated(segs.drop_first(), out.subrange(k, out.len() as int))
    }
}

proof fn lemma_line_decorated_snoc(
    segs: Seq<(StyleKind, Seq<char>)>,
    out: Seq<char>,
    st: StyleKind,
    text: Seq<char>,
    styled: Seq<char>,
)
    requires
        line_decorated(segs, out),
        seg_decorated(st, text, styled),
    ensures
        line_decorated(segs.push((st, text)), out + styled),
    decreases segs.len(),
{
    let whole = out + styled;
    if segs.len() == 0 {
        assert(out.len() == 0);
        assert(whole.subrange(0, styled.len() as int) =~= styled);
        assert(whole.subrange(styled.len() as int, whole.len() as int) =~= Seq::<char>::empty());
        assert(segs.push((st, text))[0] == (st, text));
        assert(segs.push((st, text)).drop_first() =~= Seq::<(StyleKind, Seq<char>)>::empty());
        assert(line_decorated(segs.push((st, text)), whole)) by {
            let k = styled.len() as int;
            assert(seg_decorated(st, text, whole.subrange(0, k)));
            assert(line_decorated(
                segs.push((st, text)).drop_first(),
                whole.subrange(k, whole.len() as int),
            ));
        }
    } else {
        let k = choose|k: int|
            0 <= k <= out.len() && seg_decorated(segs[0].0, segs[0].1, #[trigger] out.subrange(0, k))
                && line_decorated(segs.drop_first(), out.subrange(k, out.len() as int));
        lemma_line_decorated_snoc(
            segs.drop_first(),
            out.subrange(k, out.len() as int),
            st,
            text,
            styled,
        );
        assert(segs.push((st, text)).drop_first() =~= segs.drop_first().push((st, text)));
        assert(whole.subrange(0, k) =~= out.subrange(0, k));
        assert(whole.subrange(k, whole.len() as int) =~= out.subrange(k, out.len() as int)
            + styled);
        assert(segs.push((st, text))[0] == segs[0]);
        assert(line_decorated(segs.push((st, text)), whole)) by {
            assert(seg_decorated(
                segs.push((st, text))[0].0,
                segs.push((st, text))[0].1,
                whole.subrange(0, k),
            ));
            assert(line_decorated(
                segs.push((st, text)).drop_first(),
                whole.subrange(k, whole.len() as int),
            ));
        }
    }
}

/// Seals one line: colours each piece and joins them.
fn style_line(segs: &Vec<Segment>) -> (r: String)
    ensures
        line_decorated(seg_views(segs@), r@),
{
    let mut out = String::new();
    let mut i: usize = 0;
    proof {
        assert(seg_views(segs@).take(0) =~= Seq::<(StyleKind, Seq<char>)>::empty());
    }
    while i < segs.len()
        invariant
            0 <= i <= segs@.len(),
            line_decorated(seg_views(segs@).take(i as int), out@),
        decreases segs@.len() - i,
    {
        let styled = style_text(&segs[i]);
        proof {
            lemma_line_decorated_snoc(
                seg_views(segs@).take(i as int),
                out@,
                segs@[i as int].style,
                segs@[i as int].text@,
                styled@,
            );
            assert(seg_views(segs@).take(i + 1) =~= seg_views(segs@).take(i as int).push(
                (segs@[i as int].style, segs@[i as int].text@),
            ));
        }
        out.append(styled.as_str());
        i += 1;
    }
    proof {
        assert(seg_views(segs@).take(segs@.len() as int) =~= seg_views(segs@));
    }
    out
}

/// The character of one decimal digit.
pub open spec fn digit_char(d: int) -> char {
    if d == 0 {
        '0'
    } else if d == 1 {
        '1'
    } else if d == 2 {
        '2'
    } else if d == 3 {
        '3'
    } else if d == 4 {
        '4'
    } else if d == 5 {
        '5'
    } else if d == 6 {
        '6'
    } else if d == 7 {
        '7'
    } else if d == 8 {
        '8'
    } else {
        '9'
    }
}

/// The decimal digits of a number, most significant first.
pub open spec fn dec_digits(n: int) -> Seq<char>
    decreases n,
{
    if n < 10 {
        seq![digit_char(n)]
    } else {
        dec_digits(n / 10).push(digit_char(n % 10))
    }
}

/// Writes a number in decimal.
pub fn u32_to_string(n: u32) -> (r: String)
    ensures
        r@ == dec_digits(n as int),
        r@.len() >= 1,
    decreases n,
{
    let d: u32 = n % 10;
    let ds: &str = match d {
        0 => "0",
        1 => "1",
        2 => "2",
        3 => "3",
        4 => "4",
        5 => "5",
        6 => "6",
        7 => "7",
        8 => "8",
        _ => "9",
    };
    proof {
        reveal_strlit("0");
        reveal_strlit("1");
        reveal_strlit("2");
        reveal_strlit("3");
        reveal_strlit("4");
        reveal_strlit("5");
        reveal_strlit("6");
        reveal_strlit("7");
        reveal_strlit("8");
        reveal_strlit("9");
        assert(ds@ =~= seq![digit_char(d as int)]);
    }
    if n < 10 {
        ds.to_owned()
    } else {
        let mut s = u32_to_string(n / 10);
        s.append(ds);
        proof {
            assert(s@ =~= dec_digits((n / 10) as int).push(digit_char((n % 10) as int)));
        }
        s
    }
}

/// The text `piece`, `n` times over.
pub open spec fn repeat_seq(piece: Seq<char>, n: int) -> Seq<char>
    decreases n,
{
    if n <= 0 {
        Seq::empty()
    } else {
        repeat_seq(piece, n - 1) + piece
    }
}

/// Writes `piece` `n` times over.
pub fn repeat_str(piece: &str, n: usize) -> (r: String)
    ensures
        r@ == repeat_seq(piece@, n as int),
{
    let mut out = String::new();
    let mut i: usize = 0;
    while i < n
        invariant
            0 <= i <= n,
            out@ == repeat_seq(piece@, i as int),
        decreases n - i,
    {
        out.append(piece);
        i += 1;
    }
    out
}

/// The line-number gutter: a space, then the number right-aligned to four
/// columns.
pub open spec fn spec_gutter(line: u32) -> Seq<char> {
    " "@ + repeat_seq(" "@, 4 - dec_digits(line as int).len()) + dec_digits(line as int)
}

/// Writes the line-number gutter.
fn gutter_string(line: u32) -> (r: String)
    ensures
        r@ == spec_gutter(line),
{
    let digits = u32_to_string(line);
    let mut out = String::new();
    out.append(" ");
    let dl = digits.as_str().unicode_len();
    let pad = if dl < 4 {
        4 - dl
    } else {
        0
    };
    let spaces = repeat_str(" ", pad);
    out.append(spaces.as_str());
    out.append(digits.as_str());
    proof {
        if dl >= 4 {
            assert(repeat_seq(" "@, 4 - dec_digits(line as int).len()) =~= Seq::<char>::empty());
        }
    }
    out
}

/// The colour of a severity label.
pub open spec fn sev_style(s: Severity) -> StyleKind {
    match s {
        Severity::Error => StyleKind::Red,
        Severity::Warning => StyleKind::Yellow,
    }
}

/// The text of a severity label.
pub open spec fn sev_label(s: Severity) -> Seq<char> {
    match s {
        Severity::Error => "error:"@,
        Severity::Warning => "warning:"@,
    }
}

/// The pieces of a diagnostic's first printed line: severity, place, message.
pub open spec fn spec_header_line(
    sev: Severity,
    path: Seq<char>,
    line: u32,
    col: u32,
    msg: Seq<char>,
) -> Seq<(StyleKind, Seq<char>)> {
    seq![
        (sev_style(sev), sev_label(sev)),
        (StyleKind::Plain, " "@),
        (StyleKind::Plain, path),
        (StyleKind::Plain, ":"@),
        (StyleKind::Plain, dec_digits(line as int)),
        (StyleKind::Plain, ":"@),
        (StyleKind::Plain, dec_digits(col as int)),
        (StyleKind::Plain, ": "@),
        (StyleKind::Plain, msg),
    ]
}

/// The pieces of the printed source line: the gutter, then the line with the
/// offending span highlighted.
pub open spec fn spec_source_line(line_no: u32, text: Seq<char>, col: int, width: int) -> Seq<
    (StyleKind, Seq<char>),
> {
    seq![
        (StyleKind::BrightBlack, spec_gutter(line_no)),
        (StyleKind::Plain, " "@),
        (StyleKind::BrightBlack, "|"@),
        (StyleKind::Plain, " "@),
        (StyleKind::Plain, text.subrange(0, col)),
        (StyleKind::BrightYellow, text.subrange(col, col + width)),
        (StyleKind::Plain, text.subrange(col + width, text.len() as int)),
    ]
}

/// The pieces of the caret line: an underline aligned to the span, and the
/// hint if there is one.
pub open spec fn spec_caret_line(col: int, width: int, hint: Option<String>) -> Seq<
    (StyleKind, Seq<char>),
> {
    let base = seq![
        (StyleKind::Plain, "      "@),
        (StyleKind::BrightBlack, "|"@),
        (StyleKind::Plain, " "@),
        (StyleKind::Plain, repeat_seq(" "@, col)),
        (StyleKind::Yellow, repeat_seq("~"@, width)),
    ];
    match hint {
        Some(h) => base + seq![
            (StyleKind::Plain, " "@),
            (StyleKind::BrightBlack, "<-"@),
            (StyleKind::Plain, " "@),
            (StyleKind::BrightGrey, "hint:"@),
            (StyleKind::Plain, " "@),
            (StyleKind::BrightGrey, h@),
        ],
        None => base,
    }
}

/// A plain piece.
fn plain(s: &str) -> (r: Segment)
    ensures
        r.style == StyleKind::Plain,
        r.text@ == s@,
{
    Segment { style: StyleKind::Plain, text: s.to_owned() }
}

/// The three printed lines of one diagnostic, as coloured pieces, against the
/// source file it points into.  Nothing when the span does not fit the file:
/// a line it does not have, or a span beyond the line's end.
pub fn node_segments(file: &SourceFile, loc: &Location, err: &CompilerError) -> (r: Option<
    Vec<Vec<Segment>>,
>)
    ensures
        match r {
            Some(v) => {
                &&& 1 <= loc.spec_line() <= file.spec_lines().len()
                &&& loc.spec_column() + loc.spec_width() <= file.spec_lines()[loc.spec_line()
                    - 1].len()
                &&& v@.len() == 3
                &&& seg_views(v@[0]@) == spec_header_line(
                    err.severity,
                    file.spec_path(),
                    loc.spec_line(),
                    loc.spec_column(),
                    err.message@,
                )
                &&& seg_views(v@[1]@) == spec_source_line(
                    loc.spec_line(),
                    file.spec_lines()[loc.spec_line() - 1],
                    loc.spec_column() as int,
                    loc.spec_width() as int,
                )
                &&& seg_views(v@[2]@) == spec_caret_line(
                    loc.spec_column() as int,
                    loc.spec_width() as int,
                    err.hint,
                )
            },
            None => loc.spec_line() < 1 || loc.spec_line() > file.spec_lines().len() || loc.spec_column()
                + loc.spec_width() > file.spec_lines()[loc.spec_line() - 1].len(),
        },
{
    let line_num = loc.line();
    if line_num < 1 {
        return None;
    }
    let line_text = match file.line(line_num) {
        Some(l) => l,
        None => {
            return None;
        },
    };
    let ll = line_text.as_str().unicode_len();
    let col = loc.column();
    let width = loc.width();
    if col > ll || width > ll - col {
        return None;
    }
    let mut header: Vec<Segment> = Vec::new();
    let sevst = match err.severity {
        Severity::Error => StyleKind::Red,
        Severity::Warning => StyleKind::Yellow,
    };
    header.push(Segment { style: sevst, text: err.severity.label().to_owned() });
    header.push(plain(" "));
    header.push(Segment { style: StyleKind::Plain, text: file.path().clone() });
    header.push(plain(":"));
    header.push(
        Segment { style: StyleKind::Plain, text: u32_to_string(line_num as u32) },
    );
    header.push(plain(":"));
    header.push(Segment { style: StyleKind::Plain, text: u32_to_string(col as u32) });
    header.push(plain(": "));
    header.push(Segment { style: StyleKind::Plain, text: err.message.clone() });
    proof {
        assert(seg_views(header@) =~= spec_header_line(
            err.severity,
            file.spec_path(),
            loc.spec_line(),
            loc.spec_column(),
            err.message@,
        ));
    }
    let mut source: Vec<Segment> = Vec::new();
    source.push(
        Segment { style: StyleKind::BrightBlack, text: gutter_string(line_num as u32) },
    );
    source.push(plain(" "));
    source.push(Segment { style: StyleKind::BrightBlack, text: String::from_str("|") });
    source.push(plain(" "));
    source.push(
        Segment {
            style: StyleKind::Plain,
            text: line_text.as_str().substring_char(0, col).to_owned(),
        },
    );
    source.push(
        Segment {
            style: StyleKind::BrightYellow,
            text: line_text.as_str().substring_char(col, col + width).to_owned(),
        },
    );
    source.push(
        Segment {
            style: StyleKind::Plain,
            text: line_text.as_str().substring_char(col + width, ll).to_owned(),
        },
    );
    proof {
        assert(seg_views(source@) =~= spec_source_line(
            loc.spec_line(),
            file.spec_lines()[loc.spec_line() - 1],
            loc.spec_column() as int,
            loc.spec_width() as int,
        ));
    }
    let mut caret: Vec<Segment> = Vec::new();
    caret.push(plain("      "));
    caret.push(Segment { style: StyleKind::BrightBlack, text: String::from_str("|") });
    caret.push(plain(" "));
    caret.push(Segment { style: StyleKind::Plain, text: repeat_str(" ", col) });
    caret.push(Segment { style: StyleKind::Yellow, text: repeat_str("~", width) });
    match &err.hint {
        Some(hint) => {
            caret.push(plain(" "));
            caret.push(Segment { style: StyleKind::BrightBlack, text: String::from_str("<-") });
            caret.push(plain(" "));
            caret.push(Segment { style: StyleKind::BrightGrey, text: String::from_str("hint:") });
            caret.push(plain(" "));
            caret.push(Segment { style: StyleKind::BrightGrey, text: hint.clone() });
        },
        None => {},
    }
    proof {
        assert(seg_views(caret@) =~= spec_caret_line(
            loc.spec_column() as int,
            loc.spec_width() as int,
            err.hint,
        ));
    }
    let mut lines: Vec<Vec<Segment>> = Vec::new();
    lines.push(header);
    lines.push(source);
    lines.push(caret);
    Some(lines)
}

impl Context {
    /// Whether a span points into a registered file, at a line the file has,
    /// covering characters the line has.
    pub open spec fn span_fits(&self, loc: Location) -> bool {
        match spec_find_id(self.spec_source_files(), loc.spec_file_id()) {
            Some(j) => {
                &&& 1 <= loc.spec_line() <= self.spec_source_files()[j].spec_lines().len()
                &&& loc.spec_column() + loc.spec_width() <= self.spec_source_files()[
                    j
                ].spec_lines()[loc.spec_line() - 1].len()
            },
            None => false,
        }
    }

    /// Whether every span of a diagnostic tree fits the registered files:
    /// exactly then the tree renders.
    pub open spec fn subtree_renderable(&self, err: CompilerError, loc: Location) -> bool
        decreases err,
    {
        &&& self.span_fits(loc)
        &&& forall|i: int|
            0 <= i < err.additional@.len() ==> self.subtree_renderable(
                (#[trigger] err.additional@[i]).inner,
                err.additional@[i].loc,
            )
    }

    /// The lines of one rendered diagnostic tree: the node's own three lines,
    /// then each secondary subtree in order, and nothing else.
    pub open spec fn subtree_rendered(
        &self,
        err: CompilerError,
        loc: Location,
        lines: Seq<String>,
    ) -> bool
        decreases err, 0int,
    {
        &&& lines.len() >= 3
        &&& self.node_rendered(err, loc, lines, 0)
        &&& self.forest_rendered(
            err.additional,
            err.additional@.len() as int,
            lines.subrange(3, lines.len() as int),
        )
    }

    /// The lines of the first `k` subtrees of a row of diagnostics, in
    /// order.
    pub open spec fn forest_rendered(
        &self,
        items: Vec<Located<CompilerError>>,
        k: int,
        lines: Seq<String>,
    ) -> bool
        decreases items, k,
    {
        if k <= 0 {
            lines.len() == 0
        } else if k > items@.len() {
            false
        } else {
            exists|m: int|
                0 <= m <= lines.len() && self.forest_rendered(items, k - 1, lines.subrange(0, m))
                    && self.subtree_rendered(
                    items@[k - 1].inner,
                    items@[k - 1].loc,
                    #[trigger] lines.subrange(m, lines.len() as int),
                )
        }
    }

    /// What the three printed lines of one diagnostic node hold, as they
    /// stand at rows `base`, `base + 1` and `base + 2` of the output: each is
    /// the decorated form of its exact pieces, against some registered source
    /// file with the span's identifier that the span fits into.
    pub open spec fn node_rendered(
        &self,
        err: CompilerError,
        loc: Location,
        lines: Seq<String>,
        base: int,
    ) -> bool {
        exists|f: SourceFile|
            {
                &&& #[trigger] self.spec_source_files().contains(f)
                &&& f.spec_id() == loc.spec_file_id()
                &&& 1 <= loc.spec_line() <= f.spec_lines().len()
                &&& loc.spec_column() + loc.spec_width() <= f.spec_lines()[loc.spec_line()
                    - 1].len()
                &&& line_decorated(
                    spec_header_line(
                        err.severity,
                        f.spec_path(),
                        loc.spec_line(),
                        loc.spec_column(),
                        err.message@,
                    ),
                    lines[base]@,
                )
                &&& line_decorated(
                    spec_source_line(
                        loc.spec_line(),
                        f.spec_lines()[loc.spec_line() - 1],
                        loc.spec_column() as int,
                        loc.spec_width() as int,
                    ),
                    lines[base + 1]@,
                )
                &&& line_decorated(
                    spec_caret_line(
                        loc.spec_column() as int,
                        loc.spec_width() as int,
                        err.hint,
                    ),
                    lines[base + 2]@,
                )
            }
    }

    /// Renders one diagnostic and, after it, each of its secondary
    /// diagnostics in order, each against its own source file: severity and
    /// place, the offending line, and a caret underline with the hint.
    /// Nothing when some span in the tree points outside the registered
    /// files.
    pub fn highlight_error_lines(&self, err: &Located<CompilerError>) -> (r: Option<Vec<String>>)
        ensures
            r is Some <==> self.subtree_renderable(err.spec_inner(), err.spec_location()),
            r matches Some(lines) ==> lines@.len() >= 3 && self.subtree_rendered(
                err.spec_inner(),
                err.spec_location(),
                lines@,
            ),
    {
        let mut out: Vec<String> = Vec::new();
        let loc = err.location();
        if self.render_into(loc, err.get(), &mut out) {
            proof {
                assert(out@.subrange(0, out@.len() as int) =~= out@);
            }
            Some(out)
        } else {
            None
        }
    }

    /// Renders one node of the diagnostic tree into `out`, then its
    /// secondaries, depth first and in order.  It succeeds exactly when
    /// every span of the tree fits the registered files.
    fn render_into(&self, loc: &Location, err: &CompilerError, out: &mut Vec<String>) -> (ok: bool)
        ensures
            old(out)@.is_prefix_of(final(out)@),
            ok == self.subtree_renderable(*err, *loc),
            ok ==> final(out)@.len() >= old(out)@.len() + 3 && self.subtree_rendered(
                *err,
                *loc,
                final(out)@.subrange(old(out)@.len() as int, final(out)@.len() as int),
            ),
        decreases *err,
    {
        let ghost base = out@.len() as int;
        let file = match self.source_file(loc.file_id()) {
            Some(f) => f,
            None => {
                proof {
                    assert(out@ =~= out@.subrange(0, out@.len() as int));
                    assert(!self.span_fits(*loc));
                }
                return false;
            },
        };
        let segs = match node_segments(file, loc, err) {
            Some(s) => s,
            None => {
                proof {
                    assert(out@ =~= out@.subrange(0, out@.len() as int));
                    assert(!self.span_fits(*loc));
                }
                return false;
            },
        };
        out.push(style_line(&segs[0]));
        out.push(style_line(&segs[1]));
        out.push(style_line(&segs[2]));
        proof {
            lemma_find_id_lands(self.spec_source_files(), loc.spec_file_id());
            let fi = spec_find_id(self.spec_source_files(), loc.spec_file_id())->0;
            assert(self.spec_source_files()[fi] == *file);
            assert(self.spec_source_files().contains(*file));
            assert(self.span_fits(*loc));
            assert(old(out)@.is_prefix_of(out@)) by {
                assert(old(out)@ =~= out@.subrange(0, base));
            }
            assert(self.node_rendered(*err, *loc, out@, base));
        }
        let ghost snap = out@;
        proof {
            assert(old(out)@ =~= snap.subrange(0, base));
            assert(snap.subrange(0, base).is_prefix_of(snap)) by {
                assert(snap.subrange(0, base) =~= snap.subrange(
                    0,
                    snap.subrange(0, base).len() as int,
                ));
            }
            assert(out@.subrange(base + 3, out@.len() as int) =~= Seq::<String>::empty());
            assert(self.forest_rendered(
                err.additional,
                0,
                out@.subrange(base + 3, out@.len() as int),
            ));
        }
        let n = err.additional.len();
        let mut i: usize = 0;
        while i < n
            invariant
                n == err.additional@.len(),
                0 <= i <= n,
                0 <= base,
                base == old(out)@.len(),
                old(out)@ == snap.subrange(0, base),
                snap.len() == base + 3,
                snap.is_prefix_of(out@),
                self.node_rendered(*err, *loc, snap, base),
                forall|j: int|
                    0 <= j < i ==> self.subtree_renderable(
                        (#[trigger] err.additional@[j]).inner,
                        err.additional@[j].loc,
                    ),
                self.forest_rendered(
                    err.additional,
                    i as int,
                    out@.subrange(base + 3, out@.len() as int),
                ),
            decreases n - i,
        {
            let sub = &err.additional[i];
            proof {
                assert(decreases_to!(*err => err.additional@[i as int].inner));
            }
            let ghost before = out@;
            if !self.render_into(sub.location(), sub.get(), out) {
                proof {
                    crate::parser::lemma_prefix_trans(snap, before, out@);
                    crate::parser::lemma_prefix_trans(snap.subrange(0, base), snap, out@);
                    assert(old(out)@ =~= snap.subrange(0, base));
                    assert(!self.subtree_renderable(*err, *loc)) by {
                        if self.subtree_renderable(*err, *loc) {
                            assert(self.subtree_renderable(
                                err.additional@[i as int].inner,
                                err.additional@[i as int].loc,
                            ));
                        }
                    }
                }
                return false;
            }
            proof {
                crate::parser::lemma_prefix_trans(snap, before, out@);
                let m = before.len() - (base + 3);
                let newsuffix = out@.subrange(base + 3, out@.len() as int);
                assert(newsuffix.subrange(0, m) =~= before.subrange(base + 3, before.len() as int))
                    by {
                    assert(forall|x: int|
                        0 <= x < before.len() ==> out@[x] == #[trigger] before.subrange(
                            0,
                            before.len() as int,
                        )[x] && out@[x] == before[x]);
                }
                assert(newsuffix.subrange(m, newsuffix.len() as int) =~= out@.subrange(
                    before.len() as int,
                    out@.len() as int,
                ));
                assert(self.forest_rendered(err.additional, i + 1, newsuffix)) by {
                    assert(self.forest_rendered(err.additional, i as int, newsuffix.subrange(0, m)));
                    assert(self.subtree_rendered(
                        err.additional@[i as int].inner,
                        err.additional@[i as int].loc,
                        newsuffix.subrange(m, newsuffix.len() as int),
                    ));
                }
            }
            i += 1;
        }
        proof {
            crate::parser::lemma_prefix_trans(snap.subrange(0, base), snap, out@);
            assert(old(out)@ =~= snap.subrange(0, base));
            let whole = out@.subrange(base, out@.len() as int);
            assert(whole[0] == out@[base] && whole[1] == out@[base + 1] && whole[2] == out@[base
                + 2]);
            assert(out@[base] == snap[base] && out@[base + 1] == snap[base + 1] && out@[base + 2]
                == snap[base + 2]) by {
                assert(snap =~= out@.subrange(0, snap.len() as int));
            }
            lemma_node_rendered_shift(*self, *err, *loc, snap, base, whole, 0);
            assert(whole.subrange(3, whole.len() as int) =~= out@.subrange(
                base + 3,
                out@.len() as int,
            ));
            assert(self.subtree_rendered(*err, *loc, whole));
        }
        true
    }
}

/// A rendered node's three lines say the same wherever in the output they
/// stand, as long as the lines themselves are the same.
proof fn lemma_node_rendered_shift(
    ctx: Context,
    err: CompilerError,
    loc: Location,
    a: Seq<String>,
    abase: int,
    b: Seq<String>,
    bbase: int,
)
    requires
        ctx.node_rendered(err, loc, a, abase),
        a[abase] == b[bbase],
        a[abase + 1] == b[bbase + 1],
        a[abase + 2] == b[bbase + 2],
    ensures
        ctx.node_rendered(err, loc, b, bbase),
{
    let f = choose|f: SourceFile|
        {
            &&& #[trigger] ctx.spec_source_files().contains(f)
            &&& f.spec_id() == loc.spec_file_id()
            &&& 1 <= loc.spec_line() <= f.spec_lines().len()
            &&& loc.spec_column() + loc.spec_width() <= f.spec_lines()[loc.spec_line() - 1].len()
            &&& line_decorated(
                spec_header_line(
                    err.severity,
                    f.spec_path(),
                    loc.spec_line(),
                    loc.spec_column(),
                    err.message@,
                ),
                a[abase]@,
            )
            &&& line_decorated(
                spec_source_line(
                    loc.spec_line(),
                    f.spec_lines()[loc.spec_line() - 1],
                    loc.spec_column() as int,
                    loc.spec_width() as int,
                ),
                a[abase + 1]@,
            )
            &&& line_decorated(
                spec_caret_line(loc.spec_column() as int, loc.spec_width() as int, err.hint),
                a[abase + 2]@,
            )
        };
    assert(ctx.spec_source_files().contains(f));
}

} // verus!
