use swan_kernel::cpu::{cache_info_line, cpu_info_line, cpu_info_lines, trim, write_cpu_info};

#[test]
fn trim_removes_surrounding_whitespace() {
    assert_eq!(trim("  Intel(R) Core(TM)  "), "Intel(R) Core(TM)");
    assert_eq!(trim("plain"), "plain");
    assert_eq!(trim("   "), "");
    assert_eq!(trim(""), "");
    assert_eq!(trim("\u{a0}x y\u{2003}\n"), "x y");
}

#[test]
fn processor_line() {
    assert_eq!(
        cpu_info_line("GenuineIntel", "   Brand 3.0GHz  ", "None"),
        "GenuineIntel Brand 3.0GHz (None)"
    );
}

#[test]
fn cache_line() {
    assert_eq!(cache_info_line("[L1]"), "CPU cache [L1]\n");
}

#[test]
fn processor_description_has_its_shape() {
    if let Some(lines) = write_cpu_info() {
        assert!(!lines.is_empty() && lines.len() <= 2);
        assert!(lines[0].ends_with(')'));
        if lines.len() == 2 {
            assert!(lines[1].starts_with("CPU cache "));
            assert!(lines[1].ends_with('\n'));
        }
    }
}

#[test]
fn processor_lines_from_reports() {
    assert_eq!(cpu_info_lines(None, Some("b"), "None", None), None);
    assert_eq!(cpu_info_lines(Some("v"), None, "None", Some("c")), None);
    assert_eq!(
        cpu_info_lines(Some("AuthenticAMD"), Some(" Ryzen "), "None", None),
        Some(vec!["AuthenticAMD Ryzen (None)".to_string()])
    );
    assert_eq!(
        cpu_info_lines(Some("v"), Some("b"), "f", Some("[L2]")),
        Some(vec!["v b (f)".to_string(), "CPU cache [L2]\n".to_string()])
    );
}
