use benchmarks::metrics::{render_table, IndexingMetrics};

/// The columns of one rendered row, after its label.
fn columns(line: &str) -> Vec<String> {
    let body = &line[17..];
    body.split(", ").map(|s| s.to_string()).collect()
}

#[test]
fn table_columns_align() {
    let vectors = vec![100usize, 10000, 1000000];
    let insert_nanos = vec![1u64, 2, 3];
    let build_nanos = vec![4u64, 5, 6];
    let trees = vec![1usize, 2, 3];
    let db_sizes = vec![5usize, 6, 7];
    let table = render_table(12345, &insert_nanos, &build_nanos, &vectors, &trees, &db_sizes);
    let lines: Vec<&str> = table.lines().collect();
    assert_eq!(lines.len(), 6);
    assert!(lines[0].starts_with("Total time to index: "));
    assert!(lines[1].starts_with("  => Vectors:    "));
    assert!(lines[2].starts_with("  => Insertions: "));
    assert!(lines[3].starts_with("  => Builds:     "));
    assert!(lines[4].starts_with("  => Trees:      "));
    assert!(lines[5].starts_with("  => Db size:    "));
    let rows: Vec<Vec<String>> = lines[1..].iter().map(|l| columns(l)).collect();
    for row in &rows {
        assert_eq!(row.len(), 3);
    }
    // Each column is as wide as its widest cell, across all five rows.
    for col in 0..3 {
        let widths: Vec<usize> = rows.iter().map(|r| r[col].len()).collect();
        let max = *widths.iter().max().unwrap();
        for w in &widths {
            assert_eq!(*w, max, "column {col} of widths {widths:?}");
        }
        let trimmed_max =
            rows.iter().map(|r| r[col].trim_start().len()).max().unwrap();
        assert_eq!(max, trimmed_max, "column {col} wider than its widest value");
    }
    // The vector counts dominate their columns here: the third column is as
    // wide as the longest count.
    assert_eq!(rows[0][2], "1000000");
    assert_eq!(rows[0][2].len(), "1000000".len());
    assert!(rows[1][2].trim_start().len() <= 7);
    assert!(rows[0][0].trim_start() == "100");
}

#[test]
fn table_formats_durations_and_sizes() {
    let table = render_table(
        1_500_000_000,
        &vec![999u64, 1_500, 2_500_000],
        &vec![1u64, 1, 1],
        &vec![1usize, 2, 3],
        &vec![1usize, 1, 1],
        &vec![0usize, 1024, 1048576],
    );
    assert!(table.starts_with("Total time to index: 1.50s ("));
    assert!(table.contains("999.00ns"));
    assert!(table.contains("1.50us"));
    assert!(table.contains("2.50ms"));
    // Byte sizes go through binary units.
    assert!(table.contains("KiB"));
    assert!(table.contains("MiB"));
}

#[test]
fn metrics_lifecycle_renders() {
    let mut m = IndexingMetrics::new();
    for chunk in 0..2usize {
        m.start_insertion();
        m.end_insertion();
        m.start_building();
        m.end_building();
        m.new_nb_vectors((chunk + 1) * 500);
        m.new_nb_trees(chunk + 7);
        m.new_database_size((chunk + 1) * 4096);
    }
    m.end();
    let table = m.render();
    let lines: Vec<&str> = table.lines().collect();
    assert_eq!(lines.len(), 6);
    assert!(lines[1].contains("500"));
    assert!(lines[1].contains("1000"));
    assert!(lines[4].contains("7"));
    assert!(lines[4].contains("8"));
    assert!(lines[5].contains("KiB"));
}
