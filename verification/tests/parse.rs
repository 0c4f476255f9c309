use diffview::Diff;

#[test]
fn it_parses_a_git_diff_patch() {
    let patch = r###"diff --git a/src/lib.rs b/src/lib.rs
index a93251b..5315830 100644
--- a/src/lib.rs
+++ b/src/lib.rs
@@ -1,3 +1,3 @@
 #[test]
-fn it_works() {
+fn it_parses_a_git_patch() {
 }
@@ -1,3 +1,3 @@
 #[test]
-fn it_works() {
+fn it_parses_a_git_patch() {
 }
diff --git a/Cargo.toml b/Cargo.toml
index 071b9ee..5dd607e 100644
--- a/Cargo.toml
+++ b/Cargo.toml
@@ -4,3 +4,6 @@ version = "0.1.0"
 authors = ["Bruno Tavares <connect+github@bltavares.com>"]
 
 [dependencies]
+
"###;

    let diff = Diff::parse(patch);

    assert_eq!(diff.files().len(), 2);
    assert_eq!(diff.files()[0].name().unwrap(), "b/src/lib.rs");
    assert_eq!(diff.files()[0].chunks().len(), 2);
}

#[test]
fn two_file_patch_names_and_hunk_counts() {
    let patch = "+++ b/src/lib.rs\n\
                 @@ -1,3 +1,3 @@\n one\n two\n three\n\
                 @@ -1,3 +1,3 @@\n one\n two\n three\n\
                 +++ b/Cargo.toml\n\
                 @@ -1,3 +1,3 @@\n one\n two\n three\n";
    let diff = Diff::parse(patch);
    assert_eq!(diff.files().len(), 2);
    assert_eq!(diff.files()[0].name().unwrap(), "b/src/lib.rs");
    assert_eq!(diff.files()[1].name().unwrap(), "b/Cargo.toml");
    assert_eq!(diff.files()[0].chunks().len(), 2);
    assert_eq!(diff.files()[1].chunks().len(), 1);
}

#[test]
fn single_file_single_hunk() {
    let patch = "+++ b/a.txt\n@@ -1 +1 @@\n-old\n+new\n";
    let diff = Diff::parse(patch);
    assert_eq!(diff.files().len(), 1);
    assert_eq!(diff.files()[0].chunks().len(), 1);
}

#[test]
fn no_file_marker_yields_no_files() {
    let diff = Diff::parse("hello\nworld\n");
    assert_eq!(diff.files().len(), 0);
}

#[test]
fn empty_input_yields_no_files() {
    let diff = Diff::parse("");
    assert_eq!(diff.files().len(), 0);
}

#[test]
fn marker_prefix_must_open_a_line() {
    // "+++ " occurs only mid-line, so no file section starts.
    let diff = Diff::parse("a +++ b\nsome +++ other\n");
    assert_eq!(diff.files().len(), 0);
}

#[test]
fn trailing_marker_line_yields_trailing_file() {
    // A "+++ " line as the very last line, without a trailing newline.
    let patch = "junk\n+++ b/x.txt";
    let diff = Diff::parse(patch);
    assert_eq!(diff.files().len(), 1);
    assert_eq!(diff.files()[0].name().unwrap(), "b/x.txt");
    assert_eq!(diff.files()[0].chunks().len(), 0);
    assert_eq!(diff.files()[0].content(), "+++ b/x.txt");
}

#[test]
fn bare_marker_as_last_line_gives_empty_name() {
    let patch = "junk\n+++ ";
    let diff = Diff::parse(patch);
    assert_eq!(diff.files().len(), 1);
    assert_eq!(diff.files()[0].name().unwrap(), "");
    assert_eq!(diff.files()[0].content(), "+++ ");
}

#[test]
fn file_and_chunk_contents_are_exact_spans() {
    let patch = "preamble\n+++ b/a\n@@ -1 +1 @@\n-x\n+y\n+++ b/b\ncontext\n";
    let diff = Diff::parse(patch);
    assert_eq!(diff.content(), patch);
    assert_eq!(diff.files().len(), 2);
    assert_eq!(diff.files()[0].content(), "+++ b/a\n@@ -1 +1 @@\n-x\n+y\n");
    assert_eq!(diff.files()[1].content(), "+++ b/b\ncontext\n");
    assert_eq!(diff.files()[0].chunks().len(), 1);
    assert_eq!(diff.files()[0].chunks()[0].content(), "@@ -1 +1 @@\n-x\n+y\n");
    assert_eq!(diff.files()[1].chunks().len(), 0);
}

#[test]
fn spans_cover_text_from_first_marker_without_overlap() {
    let patch = "lead\n+++ b/a\nbody a\n+++ b/b\nbody b\n+++ b/c";
    let diff = Diff::parse(patch);
    assert_eq!(diff.files().len(), 3);
    let mut joined = String::new();
    for f in diff.files() {
        joined.push_str(f.content());
    }
    // The concatenated file spans are exactly the input from the first
    // "+++ " marker to the end of the text.
    assert_eq!(joined, &patch[5..]);
}

#[test]
fn parsing_twice_is_deterministic() {
    let patch = "+++ b/a\n@@ -1 +1 @@\n-x\n+y\n+++ b/b\n@@ -2 +2 @@\n z\n";
    let first = Diff::parse(patch);
    let second = Diff::parse(patch);
    assert_eq!(first, second);
    assert_eq!(first.files().len(), second.files().len());
    for (f1, f2) in first.files().iter().zip(second.files().iter()) {
        assert_eq!(f1.name().unwrap(), f2.name().unwrap());
        assert_eq!(f1.content(), f2.content());
        assert_eq!(f1.chunks().len(), f2.chunks().len());
        for (c1, c2) in f1.chunks().iter().zip(f2.chunks().iter()) {
            assert_eq!(c1.content(), c2.content());
        }
    }
}

#[test]
fn hunk_marker_mid_line_is_not_a_hunk() {
    let patch = "+++ b/a\nsome @@ text\n@@ -1 +1 @@\n-x\n";
    let diff = Diff::parse(patch);
    assert_eq!(diff.files().len(), 1);
    assert_eq!(diff.files()[0].chunks().len(), 1);
    assert_eq!(diff.files()[0].chunks()[0].content(), "@@ -1 +1 @@\n-x\n");
}

#[test]
fn name_keeps_everything_after_the_marker() {
    // The name is the first line minus its leading four characters: no
    // trimming of whatever follows.
    let patch = "+++ b/a.txt\t2024-01-01\nbody\n";
    let diff = Diff::parse(patch);
    assert_eq!(diff.files()[0].name().unwrap(), "b/a.txt\t2024-01-01");
}
