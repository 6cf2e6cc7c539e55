use lib::obj_text::{
    assemble_obj, classify_line, obj_records, parse_i32_word, split_words, text_lines,
    word_before_slash, ObjBuilder, ObjLine,
};

fn chars(s: &str) -> Vec<char> {
    s.chars().collect()
}

fn words_of(s: &str) -> Vec<String> {
    split_words(&chars(s)).into_iter().map(|w| w.into_iter().collect()).collect()
}

#[test]
fn words_split_on_unicode_whitespace() {
    assert_eq!(words_of("  v 1.0\t2.0 \u{3000}3.0\r"), vec!["v", "1.0", "2.0", "3.0"]);
    assert!(words_of(" \t ").is_empty());
    assert_eq!(words_of("f 1/2/3 4//5"), vec!["f", "1/2/3", "4//5"]);
}

#[test]
fn i32_words_read_like_str_parse() {
    for s in ["0", "7", "-3", "+12", "2147483647", "-2147483648", "2147483648", "-2147483649",
        "", "-", "+", "1a", " 1", "--1", "99999999999999999999", "+-5", "007"] {
        let expected = s.parse::<i32>().ok();
        assert_eq!(parse_i32_word(&chars(s)), expected, "word {:?}", s);
    }
}

#[test]
fn reference_part_before_slash() {
    assert_eq!(word_before_slash(&chars("12/4/7")), chars("12"));
    assert_eq!(word_before_slash(&chars("3//1")), chars("3"));
    assert_eq!(word_before_slash(&chars("/5")), chars(""));
    assert_eq!(word_before_slash(&chars("9")), chars("9"));
}

#[test]
fn lines_split_at_newlines() {
    let ls = text_lines("a\nb\r\n\nc");
    let ls: Vec<String> = ls.into_iter().map(|l| l.into_iter().collect()).collect();
    assert_eq!(ls, vec!["a", "b\r", "", "c"]);
    assert_eq!(text_lines("").len(), 1);
}

#[test]
fn lines_classify() {
    assert!(matches!(classify_line(&chars("")), ObjLine::Skip));
    assert!(matches!(classify_line(&chars("  # v 1 2 3")), ObjLine::Skip));
    assert!(matches!(classify_line(&chars("v 1 2")), ObjLine::Skip));
    assert!(matches!(classify_line(&chars("vt 0.5 0.5")), ObjLine::Skip));
    match classify_line(&chars("v 1.5 -2 3e1 extra")) {
        ObjLine::Vertex(x, y, z) => {
            assert_eq!((x, y, z), (chars("1.5"), chars("-2"), chars("3e1")));
        }
        _ => panic!("expected a vertex"),
    }
    match classify_line(&chars("f 1 2/3 4//5")) {
        ObjLine::Face(ws) => assert_eq!(ws, vec![chars("1"), chars("2/3"), chars("4//5")]),
        _ => panic!("expected a face"),
    }
}

#[test]
fn faces_fan_triangulate_and_cycle_materials() {
    let mut b = ObjBuilder::new();
    for _ in 0..5 {
        b.add_vertex();
    }
    b.add_face(&vec![chars("1"), chars("2/7"), chars("3//9"), chars("4")]);
    assert_eq!(b.indices, vec![0, 1, 2, 0, 2, 3]);
    assert_eq!(b.material_indices, vec![0, 1]);
    // Negative references count back from the latest vertex; bad words skip.
    b.add_face(&vec![chars("-1"), chars("x"), chars("-2"), chars("-5")]);
    assert_eq!(&b.indices[6..], &[4, 3, 0]);
    assert_eq!(b.material_indices, vec![0, 1, 2]);
    // Fewer than three usable references add nothing.
    b.add_face(&vec![chars("1"), chars("")]);
    assert_eq!(b.indices.len(), 9);
    b.add_face(&vec![chars("1"), chars("2"), chars("3")]);
    assert_eq!(b.material_indices, vec![0, 1, 2, 0]);
    assert!(b.is_buildable());
    assert!(!ObjBuilder::new().is_buildable());
}

/// Whether each record is a vertex whose coordinates read as `f32`.
fn vertex_flags(records: &[ObjLine]) -> Vec<bool> {
    records
        .iter()
        .map(|r| match r {
            ObjLine::Vertex(x, y, z) => [x, y, z]
                .iter()
                .all(|w| w.iter().collect::<String>().parse::<f32>().is_ok()),
            _ => false,
        })
        .collect()
}

#[test]
fn whole_text_reads_vertices_and_faces_in_order() {
    let text = "# quad and triangle\nv 0 0 0\nv 1 0 0\nv bad 1 0\nv 1 1 0\nv 0 1\n\
                f 1 2 3\nvn 0 0 1\nv 0 1 0\nf -1 -4 -3 -2\nf 1 2\n";
    let records = obj_records(text);
    assert_eq!(records.len(), 12);
    let ok = vertex_flags(&records);
    assert_eq!(ok.iter().filter(|&&b| b).count(), 4);
    let b = assemble_obj(&records, &ok);
    assert_eq!(b.vertex_count, 4);
    // The face before vertex 4 sees three vertices; the last face is too short.
    assert_eq!(b.indices, vec![0, 1, 2, 3, 0, 1, 3, 1, 2]);
    assert_eq!(b.material_indices, vec![0, 1, 2]);
    assert_eq!(b.material_index, 0);
}

#[test]
fn materials_cycle_over_a_whole_text() {
    let mut text = String::from("v 0 0 0\nv 1 0 0\nv 1 1 0\nv 0 1 0\n");
    for _ in 0..5 {
        text.push_str("f 1 2 3 4\n");
    }
    let records = obj_records(&text);
    let b = assemble_obj(&records, &vertex_flags(&records));
    assert_eq!(b.indices.len(), 3 * b.material_indices.len());
    for (j, &m) in b.material_indices.iter().enumerate() {
        assert_eq!(m as usize, j % 3);
    }
    assert_eq!(b.material_index as usize, b.material_indices.len() % 3);
}
