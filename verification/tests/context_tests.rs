use bcpl_front::context::{BuildKind, Context, OutputFile};
use bcpl_front::error::{IntoCompilerError, ParseError, Severity};
use bcpl_front::context::{repeat_str, u32_to_string};
use bcpl_front::source_file::{Located, Location, SourceFile, WithLocation};

#[test]
fn source_file_line_table() {
    let f = SourceFile::new(3, String::from("a.b"), String::from("ab\nc\n"));
    assert_eq!(f.contents().as_str(), "ab\nc\n");
    assert_eq!(f.path().as_str(), "a.b");
    assert_eq!(f.line(1).expect("line 1").as_str(), "ab");
    assert_eq!(f.line(2).expect("line 2").as_str(), "c");
    assert_eq!(f.line(3).expect("line 3").as_str(), "");
    assert!(f.line(4).is_none());
}

#[test]
fn source_file_without_breaks_is_one_line() {
    let f = SourceFile::new(1, String::from("b.b"), String::from("just one line"));
    assert_eq!(f.line(1).expect("line 1").as_str(), "just one line");
    assert!(f.line(2).is_none());
}

#[test]
fn location_accessors_and_width() {
    let f = SourceFile::new(9, String::from("c.b"), String::from("text\n"));
    let mut loc = Location::new(&f, 1, 2, 1);
    assert_eq!(loc.file_id(), 9);
    assert_eq!(loc.line(), 1);
    assert_eq!(loc.column(), 2);
    assert_eq!(loc.width(), 1);
    loc.set_width(3);
    assert_eq!(loc.width(), 3);
}

#[test]
fn located_carries_value_and_span() {
    let f = SourceFile::new(1, String::from("d.b"), String::from("x\n"));
    let loc = Location::new(&f, 1, 0, 1);
    let v = Located::with_location(41u32, loc);
    assert_eq!(*v.location(), loc);
    assert_eq!(*v.get(), 41);
    let w = v.map(|n| n + 1);
    assert_eq!(*w.location(), loc);
    assert_eq!(w.unwrap(), 42);
    let s = String::from("tag").with_location(loc);
    assert_eq!(s.unwrap().as_str(), "tag");
}

#[test]
fn build_kind_extensions() {
    assert_eq!(BuildKind::Executable.ext("linux"), Some(""));
    assert_eq!(BuildKind::Object.ext("macos"), Some(".o"));
    assert_eq!(BuildKind::SharedObject.ext("unix"), Some(".so"));
    assert_eq!(BuildKind::Executable.ext("windows"), Some(".exe"));
    assert_eq!(BuildKind::Object.ext("windows"), Some(".lib"));
    assert_eq!(BuildKind::SharedObject.ext("windows"), Some(".dll"));
    assert_eq!(BuildKind::Executable.ext("plan9"), None);
    assert_eq!(BuildKind::Executable.ext_unix(), "");
    assert_eq!(BuildKind::SharedObject.ext_windows(), ".dll");
}

#[test]
fn output_filenames() {
    let named = OutputFile::Name(String::from("out.bin"));
    assert_eq!(
        named.to_filename(&BuildKind::Executable, "linux").expect("named").as_str(),
        "out.bin"
    );
    assert_eq!(
        OutputFile::Default.to_filename(&BuildKind::Executable, "linux").expect("a").as_str(),
        "a"
    );
    assert_eq!(
        OutputFile::Default.to_filename(&BuildKind::Object, "linux").expect("a.o").as_str(),
        "a.o"
    );
    assert_eq!(
        OutputFile::Default.to_filename(&BuildKind::Executable, "windows").expect("a.exe").as_str(),
        "a.exe"
    );
    assert!(OutputFile::Default.to_filename(&BuildKind::Executable, "plan9").is_none());
}

#[test]
fn context_holds_its_settings_and_files() {
    let mut ctx = Context::from_program_name(String::from("bfc"));
    assert_eq!(ctx.program_name().as_str(), "bfc");
    ctx.set_output_file(String::from("prog"));
    ctx.set_build_kind(BuildKind::Object);
    ctx.define_tag(String::from("DEBUG"));
    let f7 = SourceFile::new(7, String::from("seven.b"), String::from("seven\n"));
    let f8 = SourceFile::new(8, String::from("eight.b"), String::from("eight\n"));
    ctx.add_source_files(vec![f7, f8]);
    assert_eq!(ctx.source_file(7).expect("file 7").path().as_str(), "seven.b");
    assert_eq!(ctx.source_file(8).expect("file 8").path().as_str(), "eight.b");
    assert!(ctx.source_file(9).is_none());
}

#[test]
fn severity_labels() {
    assert_eq!(Severity::Error.label(), "error:");
    assert_eq!(Severity::Warning.label(), "warning:");
    assert_eq!(ParseError::ExprWithoutSideEffect.severity(), Severity::Warning);
    let invalid = ParseError::InvalidStmt(String::from("endcase"), String::from("switchon"));
    assert_eq!(invalid.severity(), Severity::Error);
}

#[test]
fn diagnostic_messages() {
    let invalid = ParseError::InvalidStmt(String::from("resultis"), String::from("valof"));
    let diag = invalid.to_compiler_error();
    assert_eq!(diag.message.as_str(), "resultis used outside of a valof");
    assert!(diag.hint.is_none());
    assert!(diag.additional.is_empty());

    let warn = ParseError::ExprWithoutSideEffect.into_compiler_error();
    assert_eq!(warn.severity, Severity::Warning);
    assert_eq!(warn.message.as_str(), "expression statement without side effect");
    assert_eq!(
        warn.hint.expect("hint").as_str(),
        "this expression computes a value that is never used"
    );
}

#[test]
fn rendered_error_shows_line_and_carets() {
    let mut ctx = Context::from_program_name(String::from("bfc"));
    let file = SourceFile::new(1, String::from("demo.b"), String::from("let x = 5;\nnext line\n"));
    let loc = Location::new(&file, 1, 4, 1);
    ctx.add_source_files(vec![file]);
    let err = Located::with_location(
        ParseError::ExprWithoutSideEffect.into_compiler_error(),
        loc,
    );
    let lines = ctx.highlight_error_lines(&err).expect("renderable");
    assert_eq!(lines.len(), 3);
    assert!(lines[0].contains("warning:"));
    assert!(lines[0].contains("demo.b:1:4: expression statement without side effect"));
    // the severity label is coloured: an escape introducer appears
    assert!(lines[0].starts_with("\u{1b}[33m"));
    assert!(lines[1].contains("let "));
    assert!(lines[1].contains("x"));
    assert!(lines[2].contains("~"));
    assert!(lines[2].contains("hint:"));
    assert!(lines[2].contains("this expression computes a value that is never used"));
}

#[test]
fn rendered_redefinition_includes_its_note() {
    let mut ctx = Context::from_program_name(String::from("bfc"));
    let file = SourceFile::new(1, String::from("sw.b"), String::from("default: default:\n"));
    let first = Location::new(&file, 1, 0, 8);
    let second = Location::new(&file, 1, 9, 8);
    ctx.add_source_files(vec![file]);
    let err = Located::with_location(
        ParseError::Redefinition(first, String::from("default case")).into_compiler_error(),
        second,
    );
    let lines = ctx.highlight_error_lines(&err).expect("renderable");
    // three lines for the error, three for its secondary note
    assert_eq!(lines.len(), 6);
    assert!(lines[0].contains("error:"));
    assert!(lines[0].contains("sw.b:1:9: redefinition of default case"));
    assert!(lines[3].contains("sw.b:1:0: first defined here"));
    assert!(lines[2].contains("~~~~~~~~"));
}

#[test]
fn unrenderable_span_is_refused() {
    let mut ctx = Context::from_program_name(String::from("bfc"));
    let file = SourceFile::new(1, String::from("s.b"), String::from("ab\n"));
    let beyond = Location::new(&file, 1, 1, 5);
    ctx.add_source_files(vec![file]);
    let err = Located::with_location(
        ParseError::ExprWithoutSideEffect.into_compiler_error(),
        beyond,
    );
    assert!(ctx.highlight_error_lines(&err).is_none());
    // and a span into an unregistered file is refused too
    let other = Context::from_program_name(String::from("bfc"));
    let err2 = Located::with_location(
        ParseError::ExprWithoutSideEffect.into_compiler_error(),
        beyond,
    );
    assert!(other.highlight_error_lines(&err2).is_none());
}

#[test]
fn line_numbers_render_in_decimal() {
    let mut ctx = Context::from_program_name(String::from("bfc"));
    let mut contents = String::new();
    for _ in 0..11 {
        contents.push_str("filler\n");
    }
    contents.push_str("the twelfth line\n");
    let file = SourceFile::new(1, String::from("long.b"), contents);
    let loc = Location::new(&file, 12, 4, 7);
    ctx.add_source_files(vec![file]);
    let err = Located::with_location(
        ParseError::InvalidStmt(String::from("endcase"), String::from("switchon"))
            .into_compiler_error(),
        loc,
    );
    let lines = ctx.highlight_error_lines(&err).expect("renderable");
    assert!(lines[0].contains("long.b:12:4:"));
    assert!(lines[1].contains("12"));
    assert!(lines[1].contains("twelfth"));
    assert!(lines[2].contains("~~~~~~~"));
}

#[test]
fn decimal_and_repetition_helpers() {
    assert_eq!(u32_to_string(0).as_str(), "0");
    assert_eq!(u32_to_string(7).as_str(), "7");
    assert_eq!(u32_to_string(40090).as_str(), "40090");
    assert_eq!(repeat_str("~", 0).as_str(), "");
    assert_eq!(repeat_str("~", 5).as_str(), "~~~~~");
    assert_eq!(repeat_str("ab", 2).as_str(), "abab");
}

#[test]
fn same_id_file_replaces_the_prior_entry() {
    let mut ctx = Context::from_program_name(String::from("bfc"));
    let old_entry = SourceFile::new(7, String::from("old.b"), String::from("old\n"));
    ctx.add_source_files(vec![old_entry]);
    let new_entry = SourceFile::new(7, String::from("new.b"), String::from("new\n"));
    ctx.add_source_files(vec![new_entry]);
    assert_eq!(ctx.source_file(7).expect("file 7").path().as_str(), "new.b");
    // within one batch, the later same-id entry wins as well
    let a = SourceFile::new(9, String::from("a.b"), String::from("a\n"));
    let b = SourceFile::new(9, String::from("b.b"), String::from("b\n"));
    ctx.add_source_files(vec![a, b]);
    assert_eq!(ctx.source_file(9).expect("file 9").path().as_str(), "b.b");
}
