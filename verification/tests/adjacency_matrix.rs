use note_graph::AdjacencyMatrixBuilder;
use note_graph::NoteLink;
use note_graph::PluginError;

fn rows_to_f64(rows: &[Vec<i64>]) -> Vec<Vec<f64>> {
    rows.iter().map(|r| r.iter().map(|&v| v as f64).collect()).collect()
}

#[test]
fn test_adjacency_matrix_builder_new() {
    let note_paths = vec!["note1.md".to_string(), "note2.md".to_string(), "note3.md".to_string()];

    let builder = AdjacencyMatrixBuilder::new(note_paths);
    assert_eq!(builder.num_notes(), 3);
    assert_eq!(builder.get_note_index("note1.md"), Some(0));
    assert_eq!(builder.get_note_index("note2.md"), Some(1));
    assert_eq!(builder.get_note_index("note3.md"), Some(2));
}

#[test]
fn test_adjacency_matrix_simple() {
    let note_paths = vec!["note1.md".to_string(), "note2.md".to_string(), "note3.md".to_string()];

    let links = vec![
        NoteLink { from_id: 0, to_id: 1 },
        NoteLink { from_id: 0, to_id: 2 },
        NoteLink { from_id: 1, to_id: 2 },
    ];

    let builder = AdjacencyMatrixBuilder::new(note_paths);
    let matrix = builder.build(links).expect("Failed to build matrix");
    let vectors = rows_to_f64(&builder.matrix_to_vectors(&matrix));

    assert_eq!(vectors.len(), 3);
    assert_eq!(vectors[0], vec![0.0, 1.0, 1.0]); // note1 links to note2 and note3
    assert_eq!(vectors[1], vec![0.0, 0.0, 1.0]); // note2 links to note3
    assert_eq!(vectors[2], vec![0.0, 0.0, 0.0]); // note3 has no outgoing links
}

#[test]
fn test_adjacency_matrix_multiple_links() {
    let note_paths = vec!["note1.md".to_string(), "note2.md".to_string()];

    let links = vec![
        NoteLink { from_id: 0, to_id: 1 },
        NoteLink { from_id: 0, to_id: 1 }, // Duplicate link
    ];

    let builder = AdjacencyMatrixBuilder::new(note_paths);
    let matrix = builder.build(links).expect("Failed to build matrix");
    let vectors = rows_to_f64(&builder.matrix_to_vectors(&matrix));

    assert_eq!(vectors[0], vec![0.0, 2.0]); // note1 has 2 links to note2
}

#[test]
fn test_adjacency_matrix_invalid_index() {
    let note_paths = vec!["note1.md".to_string(), "note2.md".to_string()];

    let links = vec![NoteLink { from_id: 0, to_id: 5 }]; // Invalid index

    let builder = AdjacencyMatrixBuilder::new(note_paths);
    let result = builder.build(links);

    assert!(result.is_err());
    match result {
        Err(PluginError::InvalidLinkIndex { from, to, max }) => {
            assert_eq!(from, 0);
            assert_eq!(to, 5);
            assert_eq!(max, 1);
        },
        _ => panic!("Expected InvalidLinkIndex error"),
    }
}

#[test]
fn test_laplacian_simple() {
    let note_paths = vec!["note1.md".to_string(), "note2.md".to_string(), "note3.md".to_string()];

    let links = vec![
        NoteLink { from_id: 0, to_id: 1 },
        NoteLink { from_id: 0, to_id: 2 },
        NoteLink { from_id: 1, to_id: 2 },
    ];

    let builder = AdjacencyMatrixBuilder::new(note_paths);
    let matrix = builder.build_laplacian(links).expect("Failed to build Laplacian");
    let vectors = rows_to_f64(&builder.matrix_to_vectors(&matrix));

    // Verify Laplacian properties
    // For a directed graph: L[i][i] = out-degree(i), L[i][j] = -A[i][j]
    // node1: out-degree=2, links to node2 and node3
    // node2: out-degree=1, links to node3
    // node3: out-degree=0, no outgoing links
    assert_eq!(vectors[0], vec![2.0, -1.0, -1.0]); // L[0] = [2, -1, -1]
    assert_eq!(vectors[1], vec![0.0, 1.0, -1.0]); // L[1] = [0, 1, -1]
    assert_eq!(vectors[2], vec![0.0, 0.0, 0.0]); // L[2] = [0, 0, 0]
}

#[test]
fn test_laplacian_isolated_node() {
    let note_paths = vec!["note1.md".to_string(), "note2.md".to_string()];

    let links = vec![]; // No links, all nodes isolated

    let builder = AdjacencyMatrixBuilder::new(note_paths);
    let matrix = builder.build_laplacian(links).expect("Failed to build Laplacian");
    let vectors = rows_to_f64(&builder.matrix_to_vectors(&matrix));

    // Isolated nodes should have all zeros
    assert_eq!(vectors[0], vec![0.0, 0.0]);
    assert_eq!(vectors[1], vec![0.0, 0.0]);
}

#[test]
fn test_laplacian_self_loop() {
    let note_paths = vec!["note1.md".to_string(), "note2.md".to_string()];

    let links = vec![
        NoteLink { from_id: 0, to_id: 0 }, // Self-loop
        NoteLink { from_id: 0, to_id: 1 },
    ];

    let builder = AdjacencyMatrixBuilder::new(note_paths);
    let matrix = builder.build_laplacian(links).expect("Failed to build Laplacian");
    let vectors = rows_to_f64(&builder.matrix_to_vectors(&matrix));

    // node1 has out-degree=2 (including self-loop)
    // L[0][0] = 2 - A[0][0] = 2 - 1 = 1
    // L[0][1] = -A[0][1] = -1
    assert_eq!(vectors[0], vec![1.0, -1.0]);
    assert_eq!(vectors[1], vec![0.0, 0.0]);
}

#[test]
fn test_adjacency_matrix_basic() {
    let note_paths = vec!["note1.md".to_string(), "note2.md".to_string(), "note3.md".to_string()];

    let links = vec![
        NoteLink { from_id: 0, to_id: 1 },
        NoteLink { from_id: 0, to_id: 2 },
        NoteLink { from_id: 1, to_id: 2 },
    ];

    let builder = AdjacencyMatrixBuilder::new(note_paths);
    let matrix = builder.build(links).expect("Failed to build matrix");
    let vectors = builder.matrix_to_vectors(&matrix);

    assert_eq!(vectors, vec![vec![0, 1, 1], vec![0, 0, 1], vec![0, 0, 0]]);
}

#[test]
fn test_adjacency_matrix_self_links() {
    let note_paths = vec!["note1.md".to_string(), "note2.md".to_string()];
    let links = vec![NoteLink { from_id: 0, to_id: 0 }]; // Self-link

    let builder = AdjacencyMatrixBuilder::new(note_paths);
    let matrix = builder.build(links).expect("Failed to build matrix");
    let vectors = builder.matrix_to_vectors(&matrix);

    assert_eq!(vectors, vec![vec![1, 0], vec![0, 0]]);
}

#[test]
fn test_adjacency_matrix_no_links() {
    let note_paths = vec!["note1.md".to_string(), "note2.md".to_string(), "note3.md".to_string()];
    let links = vec![]; // No links

    let builder = AdjacencyMatrixBuilder::new(note_paths);
    let matrix = builder.build(links).expect("Failed to build matrix");
    let vectors = builder.matrix_to_vectors(&matrix);

    assert_eq!(vectors, vec![vec![0, 0, 0], vec![0, 0, 0], vec![0, 0, 0]]);
}

#[test]
fn adjacency_matrix_test_test_adjacency_matrix_multiple_links() {
    let note_paths = vec!["note1.md".to_string(), "note2.md".to_string()];

    let links = vec![
        NoteLink { from_id: 0, to_id: 1 },
        NoteLink { from_id: 0, to_id: 1 }, // Duplicate link - should count as 2
    ];

    let builder = AdjacencyMatrixBuilder::new(note_paths);
    let matrix = builder.build(links).expect("Failed to build matrix");
    let vectors = builder.matrix_to_vectors(&matrix);

    assert_eq!(vectors, vec![vec![0, 2], vec![0, 0]]);
}

#[test]
fn test_get_note_index_unknown_path() {
    let note_paths = vec!["note1.md".to_string()];
    let builder = AdjacencyMatrixBuilder::new(note_paths);
    assert_eq!(builder.get_note_index("missing.md"), None);
}

#[test]
fn test_get_note_index_duplicate_path_last_wins() {
    let note_paths = vec!["a.md".to_string(), "b.md".to_string(), "a.md".to_string()];
    let builder = AdjacencyMatrixBuilder::new(note_paths);
    assert_eq!(builder.num_notes(), 3);
    assert_eq!(builder.get_note_index("a.md"), Some(2));
    assert_eq!(builder.get_note_index("b.md"), Some(1));
}

#[test]
fn test_laplacian_invalid_index() {
    let note_paths = vec!["note1.md".to_string()];
    let links = vec![NoteLink { from_id: 2, to_id: 0 }];

    let builder = AdjacencyMatrixBuilder::new(note_paths);
    match builder.build_laplacian(links) {
        Err(PluginError::InvalidLinkIndex { from, to, max }) => {
            assert_eq!(from, 2);
            assert_eq!(to, 0);
            assert_eq!(max, 0);
        },
        _ => panic!("Expected InvalidLinkIndex error"),
    }
}

#[test]
fn test_adjacency_matrix_fail_fast_first_bad_link() {
    let note_paths = vec!["note1.md".to_string(), "note2.md".to_string()];
    let links = vec![
        NoteLink { from_id: 0, to_id: 1 },
        NoteLink { from_id: 1, to_id: 9 },
        NoteLink { from_id: 7, to_id: 7 },
    ];

    let builder = AdjacencyMatrixBuilder::new(note_paths);
    match builder.build(links) {
        Err(PluginError::InvalidLinkIndex { from, to, max }) => {
            assert_eq!(from, 1);
            assert_eq!(to, 9);
            assert_eq!(max, 1);
        },
        _ => panic!("Expected InvalidLinkIndex error"),
    }
}
