use mrsim_txt::error::ErrorKind;
use mrsim_txt::reconstruct::Axis;
use mrsim_txt::trajectory::ParsedData;

fn doc(lines: &[&str]) -> Vec<u8> {
    let mut out = String::new();
    for l in lines {
        out.push_str(l);
        out.push('\n');
    }
    out.into_bytes()
}

fn header_lines() -> Vec<&'static str> {
    vec![
        "specification:",
        "  - https://github.com/philipturner/molecular-renderer",
        "",
        "header:",
        "  frame time in femtoseconds: 100.0",
        "  spatial resolution in approximate picometers: 2048.0",
        "  uses checkpoints: false",
        "  frame count: 3",
        "  frame cluster size: 2",
        "",
        "metadata:",
        "",
    ]
}

fn two_cluster_doc() -> Vec<u8> {
    let mut lines = header_lines();
    lines.extend(vec![
        "frame cluster 0:",
        "  frame start: 0",
        "  frame end: 1",
        "  metadata:",
        "  atoms:",
        "    x coordinates:",
        "      - 0: 0 5",
        "    y coordinates:",
        "      - 0: 7 1",
        "    z coordinates:",
        "      - 0: -4 2",
        "    elements: 1",
        "    flags: 0",
        "",
        "frame cluster 1:",
        "  frame start: 2",
        "  frame end: 2",
        "  metadata:",
        "  atoms:",
        "    x coordinates:",
        "      - 0: -2",
        "    y coordinates:",
        "      - 0: 3",
        "    z coordinates:",
        "      - 0: 10",
        "    elements: 1",
        "    flags: 0",
    ]);
    doc(&lines)
}

#[test]
fn end_to_end_two_clusters() {
    let mut parsed = ParsedData::new(&two_cluster_doc()).unwrap();
    let header = parsed.data().header();
    assert_eq!(header.frame_count(), 3);
    assert_eq!(header.frame_cluster_size(), 2);
    assert!(!header.uses_checkpoints());
    let res = header.spatial_resolution();
    assert_eq!(res.mantissa, 20480);
    assert_eq!(res.frac_digits, 1);
    assert_eq!(parsed.data().clusters().len(), 2);

    parsed.calculate_positions().unwrap();
    let calc = parsed.data().calculated();
    // the expected absolute sequence: 0, then 0+5, then 5-2 across the boundary
    assert_eq!(calc.x()[0], vec![0, 5, 3]);
    assert_eq!(calc.y()[0], vec![7, 8, 11]);
    assert_eq!(calc.z()[0], vec![-4, -2, 8]);
    assert_eq!(calc.elements(), &vec![1u8]);
    assert_eq!(calc.flags(), &vec![0u8]);
}

#[test]
fn decoding_twice_is_identical() {
    let text = two_cluster_doc();
    let mut p1 = ParsedData::new(&text).unwrap();
    let mut p2 = ParsedData::new(&text).unwrap();
    p1.calculate_positions().unwrap();
    p2.calculate_positions().unwrap();
    assert_eq!(p1.data().header(), p2.data().header());
    assert_eq!(p1.data().clusters().len(), p2.data().clusters().len());
    for (c1, c2) in p1.data().clusters().iter().zip(p2.data().clusters().iter()) {
        assert_eq!(c1.frame_start(), c2.frame_start());
        assert_eq!(c1.frame_end(), c2.frame_end());
        assert_eq!(c1.atoms().x_coordinates(), c2.atoms().x_coordinates());
        assert_eq!(c1.atoms().y_coordinates(), c2.atoms().y_coordinates());
        assert_eq!(c1.atoms().z_coordinates(), c2.atoms().z_coordinates());
        assert_eq!(c1.atoms().elements(), c2.atoms().elements());
        assert_eq!(c1.atoms().flags(), c2.atoms().flags());
    }
    assert_eq!(p1.data().calculated().x(), p2.data().calculated().x());
    assert_eq!(p1.data().calculated().y(), p2.data().calculated().y());
    assert_eq!(p1.data().calculated().z(), p2.data().calculated().z());
}

#[test]
fn tag_mismatch_is_consistency_error() {
    let text = String::from_utf8(two_cluster_doc()).unwrap();
    // change only cluster 1's elements array
    let both = text.replacen("    elements: 1", "    elements: 2", 2);
    let altered = both.replacen("    elements: 2", "    elements: 1", 1);
    let mut parsed = ParsedData::new(&altered.into_bytes()).unwrap();
    let e = parsed.calculate_positions().unwrap_err();
    assert_eq!(e.kind, ErrorKind::Consistency);
}

#[test]
fn flags_mismatch_is_consistency_error() {
    let text = String::from_utf8(two_cluster_doc()).unwrap();
    // the second "flags: 0" belongs to cluster 1
    let head = text.replacen("    flags: 0", "    flags: 9", 2);
    let altered = head.replacen("    flags: 9", "    flags: 0", 1);
    let mut parsed = ParsedData::new(&altered.into_bytes()).unwrap();
    let e = parsed.calculate_positions().unwrap_err();
    assert_eq!(e.kind, ErrorKind::Consistency);
}

#[test]
fn checkpoints_true_is_unsupported() {
    let text = String::from_utf8(two_cluster_doc())
        .unwrap()
        .replace("  uses checkpoints: false", "  uses checkpoints: true");
    let e = ParsedData::new(&text.into_bytes()).unwrap_err();
    assert_eq!(e.kind, ErrorKind::UnsupportedFeature);
    assert_eq!(e.line, 6);
    assert_eq!(e.expected, b"  uses checkpoints: ".to_vec());
}

#[test]
fn checkpoints_garbage_is_numeric_error() {
    let text = String::from_utf8(two_cluster_doc())
        .unwrap()
        .replace("  uses checkpoints: false", "  uses checkpoints: maybe");
    let e = ParsedData::new(&text.into_bytes()).unwrap_err();
    assert_eq!(e.kind, ErrorKind::NumericParse);
    assert_eq!(e.line, 6);
}

#[test]
fn missing_header_prefix_is_structural() {
    let text = String::from_utf8(two_cluster_doc())
        .unwrap()
        .replace("header:", "h e a d e r:");
    let e = ParsedData::new(&text.into_bytes()).unwrap_err();
    assert_eq!(e.kind, ErrorKind::StructuralFormat);
    assert_eq!(e.line, 3);
    assert!(e.cluster.is_none());
    assert_eq!(e.expected, b"header:".to_vec());
    assert_eq!(e.found, b"h e a d e r:".to_vec());
}

#[test]
fn bad_coordinate_token_is_numeric_error() {
    let text = String::from_utf8(two_cluster_doc())
        .unwrap()
        .replace("      - 0: 0 5", "      - 0: 0 5x");
    let e = ParsedData::new(&text.into_bytes()).unwrap_err();
    assert_eq!(e.kind, ErrorKind::NumericParse);
    assert_eq!(e.cluster, Some(0));
}

#[test]
fn frame_start_mismatch_is_structural() {
    let text = String::from_utf8(two_cluster_doc())
        .unwrap()
        .replace("  frame start: 2", "  frame start: 3");
    let e = ParsedData::new(&text.into_bytes()).unwrap_err();
    assert_eq!(e.kind, ErrorKind::StructuralFormat);
    assert_eq!(e.cluster, Some(1));
    assert_eq!(e.line, 1);
    assert_eq!(e.expected, b"  frame start: ".to_vec());
}

#[test]
fn atom_count_mismatch_is_consistency_error() {
    // cluster 1's x block declares a second atom that no other block has
    let text = String::from_utf8(two_cluster_doc())
        .unwrap()
        .replace(
            "    x coordinates:\n      - 0: -2",
            "    x coordinates:\n      - 0: -2\n      - 1: 4",
        );
    let e = ParsedData::new(&text.into_bytes()).unwrap_err();
    assert_eq!(e.kind, ErrorKind::Consistency);
    assert_eq!(e.cluster, Some(1));
}

#[test]
fn comment_lines_are_stripped() {
    // a leading comment would shift every header line without stripping
    let mut lines = vec!["# leading comment"];
    lines.extend(header_lines());
    let text = String::from_utf8(doc(&lines))
        .unwrap()
        .replace("  frame count: 3", "  frame count: 0");
    let parsed = ParsedData::new(&text.into_bytes()).unwrap();
    assert_eq!(parsed.data().clusters().len(), 0);
}

#[test]
fn empty_trajectory_reconstructs_empty() {
    let text = String::from_utf8(doc(&header_lines()))
        .unwrap()
        .replace("  frame count: 3", "  frame count: 0");
    let mut parsed = ParsedData::new(&text.into_bytes()).unwrap();
    parsed.calculate_positions().unwrap();
    assert!(parsed.data().calculated().x().is_empty());
    assert!(parsed.data().calculated().elements().is_empty());
}

#[test]
fn missing_cluster_coverage_is_consistency_error() {
    // frame count says 3 but no clusters exist
    let mut parsed = ParsedData::new(&doc(&header_lines())).unwrap();
    let e = parsed.calculate_positions().unwrap_err();
    assert_eq!(e.kind, ErrorKind::Consistency);
}

#[test]
fn coordinate_lookup_by_global_and_cluster_frame() {
    let mut parsed = ParsedData::new(&two_cluster_doc()).unwrap();
    parsed.calculate_positions().unwrap();
    let data = parsed.data();
    assert_eq!(data.coordinate_at(Axis::X, 0, 0), Some(0));
    assert_eq!(data.coordinate_at(Axis::X, 0, 2), Some(3));
    assert_eq!(data.coordinate_at(Axis::Y, 0, 2), Some(11));
    assert_eq!(data.coordinate_at(Axis::X, 0, 3), None);
    assert_eq!(data.coordinate_at(Axis::X, 1, 0), None);
    assert_eq!(data.coordinate_in_cluster(Axis::X, 1, 0, 0), Some(3));
    assert_eq!(data.coordinate_in_cluster(Axis::Z, 0, 1, 0), Some(-2));
    assert_eq!(data.coordinate_in_cluster(Axis::X, 2, 0, 0), None);
}

#[test]
fn discard_original_clusters_after_reconstruction() {
    let mut parsed = ParsedData::new(&two_cluster_doc()).unwrap();
    // without calculated coordinates nothing is discarded
    parsed.discard_original_clusters();
    assert_eq!(parsed.data().clusters().len(), 2);
    parsed.calculate_positions().unwrap();
    let messages_before = parsed.diagnostics().iter();
    parsed.discard_original_clusters();
    assert_eq!(parsed.data().clusters().len(), 0);
    assert_eq!(parsed.data().calculated().x()[0], vec![0, 5, 3]);
    // discarding touches nothing else, and a second call changes nothing
    assert!(parsed.data().metadata().is_none());
    assert!(parsed.data().specification().is_some());
    assert_eq!(parsed.diagnostics().iter(), messages_before);
    parsed.discard_original_clusters();
    assert_eq!(parsed.data().clusters().len(), 0);
    assert_eq!(parsed.data().calculated().x()[0], vec![0, 5, 3]);
    assert!(parsed.data().specification().is_some());
}

#[test]
fn metadata_marker_detection() {
    // the fixed grammar alone leaves the metadata section absent
    let parsed = ParsedData::new(&two_cluster_doc()).unwrap();
    assert!(parsed.data().metadata().is_none());

    let mut lines = header_lines();
    lines.push("  temperature: 300");
    lines.push("");
    let text = String::from_utf8(doc(&lines))
        .unwrap()
        .replace("  frame count: 3", "  frame count: 0");
    let with_meta = ParsedData::new(&text.into_bytes()).unwrap();
    assert!(with_meta.data().metadata().is_some());
}

#[test]
fn diagnostics_record_stage_messages() {
    let parsed = ParsedData::new(&two_cluster_doc()).unwrap();
    let messages = parsed.diagnostics().iter();
    assert_eq!(messages.len(), 4);
    assert!(messages[0].starts_with("Preprocessed text in ms:"));
    assert!(messages[1].starts_with("Parsed header in ms:"));
    assert!(messages[2].starts_with("Parsed clusters in ms:"));
    assert!(messages[3].starts_with("Using threads:"));
}

#[test]
fn atom_rows_accepted_out_of_order() {
    // a two-atom cluster whose rows are listed in reverse order
    let mut lines = header_lines();
    lines.extend(vec![
        "frame cluster 0:",
        "  frame start: 0",
        "  frame end: 2",
        "  metadata:",
        "  atoms:",
        "    x coordinates:",
        "      - 1: 10 1 1",
        "      - 0: 20 2 2",
        "    y coordinates:",
        "      - 0: 0 0 0",
        "      - 1: 0 0 0",
        "    z coordinates:",
        "      - 0: 0 0 0",
        "      - 1: 0 0 0",
        "    elements: 6 6",
        "    flags: 0 0",
    ]);
    let body = String::from_utf8(doc(&lines))
        .unwrap()
        .replace("  frame cluster size: 2", "  frame cluster size: 3");
    let mut parsed = ParsedData::new(&body.into_bytes()).unwrap();
    parsed.calculate_positions().unwrap();
    let calc = parsed.data().calculated();
    assert_eq!(calc.x()[0], vec![20, 22, 24]);
    assert_eq!(calc.x()[1], vec![10, 11, 12]);
}

#[test]
fn duplicate_atom_row_is_consistency_error() {
    let text = String::from_utf8(two_cluster_doc()).unwrap().replace(
        "    x coordinates:\n      - 0: 0 5",
        "    x coordinates:\n      - 0: 0 5\n      - 0: 1 1",
    );
    let e = ParsedData::new(&text.into_bytes()).unwrap_err();
    assert_eq!(e.kind, ErrorKind::Consistency);
    assert_eq!(e.cluster, Some(0));
}

#[test]
fn wrong_frame_count_per_row_is_consistency_error() {
    let text = String::from_utf8(two_cluster_doc())
        .unwrap()
        .replace("      - 0: 0 5", "      - 0: 0 5 9");
    let e = ParsedData::new(&text.into_bytes()).unwrap_err();
    assert_eq!(e.kind, ErrorKind::Consistency);
}

#[test]
fn element_value_over_byte_range_is_numeric_error() {
    let text = String::from_utf8(two_cluster_doc())
        .unwrap()
        .replacen("    elements: 1", "    elements: 256", 1);
    let e = ParsedData::new(&text.into_bytes()).unwrap_err();
    assert_eq!(e.kind, ErrorKind::NumericParse);
}

#[test]
fn delta_running_sum_overflow_is_numeric_error() {
    let text = String::from_utf8(two_cluster_doc())
        .unwrap()
        .replace("      - 0: 0 5", "      - 0: 2147483647 1");
    let mut parsed = ParsedData::new(&text.into_bytes()).unwrap();
    let e = parsed.calculate_positions().unwrap_err();
    assert_eq!(e.kind, ErrorKind::NumericParse);
}

#[test]
fn worker_count_does_not_change_output() {
    let text = two_cluster_doc();
    let single = rayon::ThreadPoolBuilder::new()
        .num_threads(1)
        .build()
        .unwrap();
    let mut narrow = single.install(|| ParsedData::new(&text)).unwrap();
    let mut wide = ParsedData::new(&text).unwrap();
    narrow.calculate_positions().unwrap();
    wide.calculate_positions().unwrap();
    assert_eq!(narrow.data().header(), wide.data().header());
    assert_eq!(
        narrow.data().calculated().x(),
        wide.data().calculated().x()
    );
    assert_eq!(
        narrow.data().calculated().y(),
        wide.data().calculated().y()
    );
    assert_eq!(
        narrow.data().calculated().z(),
        wide.data().calculated().z()
    );
    assert_eq!(
        narrow.data().calculated().elements(),
        wide.data().calculated().elements()
    );
}

#[test]
fn windows_line_endings_decode_identically() {
    let unix = two_cluster_doc();
    let windows = String::from_utf8(unix.clone())
        .unwrap()
        .replace('\n', "\r\n")
        .into_bytes();
    let mut a = ParsedData::new(&unix).unwrap();
    let mut b = ParsedData::new(&windows).unwrap();
    a.calculate_positions().unwrap();
    b.calculate_positions().unwrap();
    assert_eq!(a.data().header(), b.data().header());
    assert_eq!(a.data().calculated().x(), b.data().calculated().x());
    assert_eq!(a.data().calculated().elements(), b.data().calculated().elements());
}

#[test]
fn header_reals_accept_exponent_spellings() {
    let text = String::from_utf8(two_cluster_doc())
        .unwrap()
        .replace(
            "  spatial resolution in approximate picometers: 2048.0",
            "  spatial resolution in approximate picometers: 2.048e3",
        )
        .replace(
            "  frame time in femtoseconds: 100.0",
            "  frame time in femtoseconds: 1e2",
        );
    let parsed = ParsedData::new(&text.into_bytes()).unwrap();
    let res = parsed.data().header().spatial_resolution();
    assert_eq!((res.neg, res.mantissa, res.frac_digits), (false, 2048, 0));
    let ft = parsed.data().header().frame_time();
    assert_eq!((ft.neg, ft.mantissa, ft.frac_digits), (false, 100, 0));
}
