use replacer::diff::DiffSpan;
use replacer::file_patcher::PatchError;
use replacer::query;
use replacer::FilePatcher;
use replacer::LinePatcher;
use replacer::Replacement;

fn patcher(contents: &str, queries: Vec<replacer::Query>) -> FilePatcher {
    FilePatcher::new("foo.txt".to_string(), contents.as_bytes().to_vec(), &queries).unwrap()
}

#[test]
fn test_compute_replacements() {
    let contents = "Top of the file\nTop: old is nice\nTop last\n";
    let file_patcher = patcher(contents, vec![query::substring("old", "new")]);
    let replacements = file_patcher.replacements();
    assert_eq!(replacements.len(), 1);
    let actual_replacement = &replacements[0];
    assert_eq!(actual_replacement.line_no, 2);
    assert_eq!(actual_replacement.new, "Top: new is nice");
    assert_eq!(actual_replacement.old, "Top: old is nice");
}

#[test]
fn test_patch_file() {
    let contents = "first line\nI say: old is nice\nlast line\n";
    let file_patcher = patcher(contents, vec![query::substring("old", "new")]);
    let expected = "first line\nI say: new is nice\nlast line\n";
    assert_eq!(file_patcher.new_contents(), expected);
}

#[test]
fn test_line_accurate_recording() {
    let contents = "first line\nI say: old is nice\nlast line\n";
    let file_patcher = patcher(contents, vec![query::substring("old", "new")]);
    let replacements = file_patcher.replacements();
    assert_eq!(replacements.len(), 1);
    assert_eq!(replacements[0].line_no, 2);
    assert_eq!(replacements[0].old, "I say: old is nice");
    assert_eq!(replacements[0].new, "I say: new is nice");
}

#[test]
fn test_replacement_display() {
    let replacement = Replacement {
        line_no: 1,
        old: "trustchain_creation: 0".to_owned(),
        new: "blockchain_creation: 0".to_owned(),
    };
    let rendered = replacement.render();
    assert_eq!(
        rendered,
        "-- trustchain_creation: 0\n++ blockchain_creation: 0\n"
    );
}

#[test]
fn test_diff_spans_reconstruct_both_sides() {
    let replacement = Replacement {
        line_no: 1,
        old: "trustchain_creation: 0".to_owned(),
        new: "blockchain_creation: 0".to_owned(),
    };
    let spans = replacement.diff_spans();
    let mut old_side = String::new();
    let mut new_side = String::new();
    for span in &spans {
        match span {
            DiffSpan::Same(s) => {
                old_side.push_str(s);
                new_side.push_str(s);
            }
            DiffSpan::Rem(s) => old_side.push_str(s),
            DiffSpan::Add(s) => new_side.push_str(s),
        }
    }
    assert_eq!(old_side, "trustchain_creation: 0");
    assert_eq!(new_side, "blockchain_creation: 0");
}

#[test]
fn test_noop_patch_keeps_contents() {
    let contents = "alpha\nbeta\n";
    let file_patcher = patcher(contents, vec![query::substring("missing", "found")]);
    assert!(file_patcher.replacements().is_empty());
    assert_eq!(file_patcher.new_contents(), contents);
}

#[test]
fn test_noop_patch_normalizes_trailing_newline() {
    let file_patcher = patcher("alpha\nbeta", vec![query::substring("missing", "found")]);
    assert!(file_patcher.replacements().is_empty());
    assert_eq!(file_patcher.new_contents(), "alpha\nbeta\n");
}

#[test]
fn test_first_match_wins() {
    let queries = vec![
        query::substring("old", "first"),
        query::substring("old", "second"),
    ];
    let file_patcher = patcher("old stuff\n", queries);
    let replacements = file_patcher.replacements();
    assert_eq!(replacements.len(), 1);
    assert_eq!(replacements[0].new, "first stuff");
    assert_eq!(file_patcher.new_contents(), "first stuff\n");
}

#[test]
fn test_word_query_does_not_match_inside_word() {
    let q = query::regex_query("old", "new", true).unwrap();
    let line = LinePatcher::new("golden");
    assert_eq!(line.replace(&q), "golden");
    let line = LinePatcher::new("this old thing");
    assert_eq!(line.replace(&q), "this new thing");
}

#[test]
fn test_substring_query_matches_inside_word() {
    let q = query::substring("old", "new");
    let line = LinePatcher::new("golden");
    assert_eq!(line.replace(&q), "gnewen");
}

#[test]
fn test_substring_replaces_every_occurrence() {
    let q = query::substring("old", "new");
    let line = LinePatcher::new("old old old");
    assert_eq!(line.replace(&q), "new new new");
}

#[test]
fn test_empty_find_leaves_line_unchanged() {
    let q = query::substring("", "new");
    let line = LinePatcher::new("abc");
    assert_eq!(line.replace(&q), "abc");
}

#[test]
fn test_regex_backreference() {
    let q = query::from_regex("(o)ld", "$1-new").unwrap();
    let line = LinePatcher::new("old");
    assert_eq!(line.replace(&q), "o-new");
}

#[test]
fn test_invalid_pattern_is_rejected() {
    assert!(query::from_regex("(", "x").is_none());
    assert!(query::regex_query("(", "x", true).is_none());
}

#[test]
fn test_decode_failure() {
    let queries = vec![query::substring("old", "new")];
    let result = FilePatcher::new("bad.bin".to_string(), vec![0xff, 0xfe], &queries);
    assert!(matches!(result, Err(PatchError::InvalidData)));
    let result = FilePatcher::new(
        "bad.bin".to_string(),
        b"fine line\n\xff\xfe\n".to_vec(),
        &queries,
    );
    assert!(result.is_err());
}

#[test]
fn test_empty_file() {
    let file_patcher = patcher("", vec![query::substring("old", "new")]);
    assert!(file_patcher.replacements().is_empty());
    assert_eq!(file_patcher.new_contents(), "");
}

#[test]
fn test_carriage_returns_stay_in_lines() {
    let file_patcher = patcher("alpha\r\nbeta\r\n", vec![query::substring("alpha", "gamma")]);
    let replacements = file_patcher.replacements();
    assert_eq!(replacements.len(), 1);
    assert_eq!(replacements[0].old, "alpha\r");
    assert_eq!(replacements[0].new, "gamma\r");
    assert_eq!(file_patcher.new_contents(), "gamma\r\nbeta\r\n");
}

#[test]
fn test_multibyte_text_is_decoded() {
    let file_patcher = patcher("héllo wörld\n", vec![query::substring("wörld", "world")]);
    let replacements = file_patcher.replacements();
    assert_eq!(replacements.len(), 1);
    assert_eq!(file_patcher.new_contents(), "héllo world\n");
}

#[test]
fn test_patch_preview() {
    let contents = "first line\nI say: old is nice\nlast line\n";
    let file_patcher = patcher(contents, vec![query::substring("old", "new")]);
    let preview = file_patcher.patch_preview();
    assert_eq!(
        preview,
        "Patching foo.txt\n-- I say: old is nice\n++ I say: new is nice\n\n"
    );
}

#[test]
fn test_replacements_are_in_ascending_line_order() {
    let contents = "old a\nquiet\nold b\n";
    let file_patcher = patcher(contents, vec![query::substring("old", "new")]);
    let replacements = file_patcher.replacements();
    assert_eq!(replacements.len(), 2);
    assert_eq!(replacements[0].line_no, 1);
    assert_eq!(replacements[1].line_no, 3);
    assert!(replacements[0].old != replacements[0].new);
    assert!(replacements[1].old != replacements[1].new);
}
