use lib::source::{FileId, SourceFile, SourceManager, Span};

fn make_source_file(source: &str) -> SourceFile {
    SourceFile::new(FileId(0), "test.c".to_string(), source.to_string())
}

#[test]
fn line_col_returns_correct_position() {
    let sf = make_source_file("int main() {\n    return 42;\n}\n");
    assert_eq!(sf.line_col(0), Some((1, 0))); // 'i' of 'int'
    assert_eq!(sf.line_col(12), Some((1, 12))); // '('
    assert_eq!(sf.line_col(13), Some((2, 0))); // newline -> line 2
    assert_eq!(sf.line_col(18), Some((2, 5))); // 'r' of 'return'
}

#[test]
fn out_of_range_offset_returns_none() {
    let sf = make_source_file("int main() {}");
    assert_eq!(sf.line_col(100), None);
}

#[test]
fn line_returns_correct_content() {
    let sf = make_source_file("int main() {\n    return 42;\n}\n");
    assert_eq!(sf.line(1), Some("int main() {\n"));
    assert_eq!(sf.line(2), Some("    return 42;\n"));
    assert_eq!(sf.line(3), Some("}\n"));
    // Trailing \n creates an empty line 4.
    assert_eq!(sf.line(4), Some(""));
    assert_eq!(sf.line(5), None);
}

#[test]
fn source_manager_assigns_ids() {
    let mut sm = SourceManager::new();
    let sf1 = SourceFile::new(FileId(0), "a.c".to_string(), "a".into());
    let sf2 = SourceFile::new(FileId(0), "b.c".to_string(), "b".into());
    let id1 = sm.add(sf1);
    let id2 = sm.add(sf2);
    assert_ne!(id1, id2);
    assert_eq!(sm.get(id1).unwrap().path(), "a.c");
    assert_eq!(sm.get(id2).unwrap().path(), "b.c");
}

#[test]
fn empty_source_has_one_line() {
    let sf = make_source_file("");
    assert_eq!(sf.num_lines(), 1);
}

#[test]
fn line_col_at_end_of_file() {
    let sf = make_source_file("ab\ncd");
    assert_eq!(sf.line_col(5), Some((2, 2)));
    assert_eq!(sf.line_col(6), None);
    let empty = make_source_file("");
    assert_eq!(empty.line_col(0), Some((1, 0)));
    assert_eq!(empty.line_col(1), None);
}

#[test]
fn line_zero_is_none() {
    let sf = make_source_file("x\n");
    assert_eq!(sf.line(0), None);
    assert_eq!(sf.line(2), Some(""));
}

#[test]
fn line_starts_follow_newlines() {
    let sf = make_source_file("a\n\nbc\n");
    assert_eq!(sf.line_starts(), &[0, 2, 3, 6]);
    assert_eq!(sf.num_lines(), 4);
    let no_newline = make_source_file("abc");
    assert_eq!(no_newline.line_starts(), &[0]);
    assert_eq!(no_newline.line(1), Some("abc"));
}

#[test]
fn multibyte_text_is_measured_in_bytes() {
    // "é" is two bytes in UTF-8.
    let sf = make_source_file("é\nx");
    assert_eq!(sf.len(), 4);
    assert_eq!(sf.line_starts(), &[0, 3]);
    assert_eq!(sf.line(1), Some("é\n"));
    assert_eq!(sf.line(2), Some("x"));
    assert_eq!(sf.line_col(3), Some((2, 0)));
    assert_eq!(sf.line_col(2), Some((1, 2)));
}

#[test]
fn line_col_agrees_with_line() {
    let text = "int x;\n\n  y = 1;\nz";
    let sf = make_source_file(text);
    for offset in 0..=(text.len() as u32) {
        let (line, col) = sf.line_col(offset).unwrap();
        let start = sf.line_starts()[line as usize - 1];
        assert_eq!(start + col, offset);
        let line_text = sf.line(line).unwrap();
        assert!(offset as usize <= start as usize + line_text.len());
    }
}

#[test]
fn lines_concatenate_to_source() {
    let text = "first\nsecond\n\nlast";
    let sf = make_source_file(text);
    let mut joined = String::new();
    for l in 1..=sf.num_lines() {
        joined.push_str(sf.line(l).unwrap());
    }
    assert_eq!(joined, text);
}

#[test]
fn source_file_accessors() {
    let sf = SourceFile::new(FileId::new(7), "dir/x.c".to_string(), "hi".to_string());
    assert_eq!(sf.id(), FileId(7));
    assert_eq!(sf.id().as_u32(), 7);
    assert_eq!(sf.path(), "dir/x.c");
    assert_eq!(sf.source(), "hi");
    assert_eq!(sf.len(), 2);
    assert!(!sf.is_empty());
    assert!(make_source_file("").is_empty());
}

#[test]
fn source_manager_lookup_and_iteration() {
    let mut sm = SourceManager::new();
    assert!(sm.is_empty());
    assert!(sm.get(FileId(0)).is_none());
    let id = sm.add(SourceFile::new(FileId(42), "a.c".to_string(), "int a;".to_string()));
    assert_eq!(id, FileId(0));
    assert_eq!(sm.get(id).unwrap().id(), id);
    assert_eq!(sm.len(), 1);
    assert!(!sm.is_empty());
    assert!(sm.get(FileId(1)).is_none());
    let id2 = sm.add(SourceFile::new(FileId(0), "b.c".to_string(), "int b;".to_string()));
    assert_eq!(id2, FileId(1));
    assert_eq!(sm.get(id).unwrap().source(), "int a;");
    let paths: Vec<&str> = sm.iter().map(|f| f.path()).collect();
    assert_eq!(paths, vec!["a.c", "b.c"]);
}

#[test]
fn span_new_keeps_fields() {
    let span = Span::new(FileId(3), 4, 9);
    assert_eq!(span.file_id, FileId(3));
    assert_eq!(span.start, 4);
    assert_eq!(span.end, 9);
}

#[test]
fn every_line_but_the_last_ends_with_one_newline() {
    for text in ["a\nbb\n\nccc", "x\n", "", "\n\n", "no newline"] {
        let sf = make_source_file(text);
        let n = sf.num_lines();
        for k in 1..=n {
            let line = sf.line(k).unwrap();
            let start = sf.line_starts()[k as usize - 1] as usize;
            assert_eq!(&text[start..start + line.len()], line);
            if k < n {
                assert!(line.ends_with('\n'));
                assert_eq!(line.matches('\n').count(), 1);
            } else {
                assert!(!line.contains('\n'));
            }
        }
        assert!(sf.line(n + 1).is_none());
    }
}

#[test]
fn stored_files_carry_their_ids() {
    let mut sm = SourceManager::default();
    for i in 0..5u32 {
        let id = sm.add(SourceFile::new(FileId(99), format!("f{}.c", i), String::new()));
        assert_eq!(id, FileId(i));
    }
    for i in 0..7u32 {
        match sm.get(FileId(i)) {
            Some(f) => {
                assert!((i as usize) < sm.len());
                assert_eq!(f.id(), FileId(i));
            }
            None => assert!((i as usize) >= sm.len()),
        }
    }
}
