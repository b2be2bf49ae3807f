use amph::pacman::{
    field_value, normalize_dependency_token, normalize_package_token, package_names_from_output,
    package_record_from_fields, parse_cache_size, parse_install_reason, parse_keyed_fields,
    parse_pacman_log_line, recent_actions_from_logs, split_dependency_list, split_size,
    split_tokens, InstallReason,
};

fn strings(items: &[&str]) -> Vec<String> {
    items.iter().map(|s| s.to_string()).collect()
}

#[test]
fn normalize_strips_version_constraints() {
    assert_eq!(normalize_package_token("glibc>=2.38"), "glibc");
    assert_eq!(normalize_package_token("python<4"), "python");
    assert_eq!(normalize_package_token("libfoo=1.2-3"), "libfoo");
    assert_eq!(normalize_package_token("  bash  "), "bash");
}

#[test]
fn normalize_trims_commas_and_colons() {
    assert_eq!(normalize_package_token("zlib,"), "zlib");
    assert_eq!(normalize_package_token(":gcc-libs:"), "gcc-libs");
    assert_eq!(normalize_package_token("libx: optional support"), "libx: optional support");
}

#[test]
fn normalize_of_constraint_only_is_empty() {
    assert_eq!(normalize_package_token(">=1.0"), "");
    assert_eq!(normalize_package_token(""), "");
}

#[test]
fn normalize_is_idempotent_on_examples() {
    for token in ["glibc>=2.38", " zlib, ", "a=b", "x:", "plain"] {
        let once = normalize_package_token(token);
        assert_eq!(normalize_package_token(&once), once);
    }
}

#[test]
fn dependency_token_is_package_token() {
    for token in ["openssl>=3", "sh", "perl:"] {
        assert_eq!(normalize_dependency_token(token), normalize_package_token(token));
    }
}

#[test]
fn split_tokens_of_none_is_empty() {
    assert!(split_tokens("None").is_empty());
    assert!(split_tokens("NONE").is_empty());
    assert!(split_tokens("").is_empty());
}

#[test]
fn split_tokens_normalizes_and_drops_empty() {
    assert_eq!(split_tokens("glibc  zlib>=1.2 >=3 bash"), strings(&["glibc", "zlib", "bash"]));
    assert_eq!(split_tokens("base-devel xorg"), strings(&["base-devel", "xorg"]));
}

#[test]
fn split_tokens_drops_none_tokens() {
    assert_eq!(split_tokens("foo None bar"), strings(&["foo", "bar"]));
}

#[test]
fn split_dependency_list_examples() {
    assert_eq!(
        split_dependency_list("glibc  libcap>=2  sh"),
        strings(&["glibc", "libcap", "sh"])
    );
    assert!(split_dependency_list("none").is_empty());
}

#[test]
fn install_reason_parsing() {
    assert_eq!(parse_install_reason("Explicitly installed"), InstallReason::Explicit);
    assert_eq!(
        parse_install_reason("Installed as a dependency for another package"),
        InstallReason::Dependency
    );
    assert_eq!(parse_install_reason("EXPLICIT"), InstallReason::Explicit);
    assert_eq!(parse_install_reason("something else"), InstallReason::Unknown);
    assert_eq!(parse_install_reason(""), InstallReason::Unknown);
}

#[test]
fn install_reason_prefers_dependency() {
    assert_eq!(
        parse_install_reason("explicit dependency"),
        InstallReason::Dependency
    );
}

const QI_OUTPUT: &str = "Name            : bash\n\
Version         : 5.2.026-2\n\
Description     : The GNU Bourne Again shell\n\
Groups          : None\n\
Depends On      : readline  libreadline.so=8-64  glibc  ncurses\n\
Optional Deps   : bash-completion: for tab completion\n\
Required By     : base  bzip2  gzip\n\
Optional For    : None\n\
Installed Size  : 9.31 MiB\n\
Packager        : Lukas Fleischer <lfleischer@archlinux.org>\n\
Install Date    : Mon 01 Jan 2024 10:00:00 AM UTC\n\
Install Reason  : Installed as a dependency for another package\n";

#[test]
fn keyed_fields_are_read() {
    let fields = parse_keyed_fields(QI_OUTPUT);
    assert_eq!(field_value(&fields, "Name"), Some("bash".to_string()));
    assert_eq!(field_value(&fields, "Version"), Some("5.2.026-2".to_string()));
    assert_eq!(field_value(&fields, "Installed Size"), Some("9.31 MiB".to_string()));
    assert_eq!(field_value(&fields, "Missing"), None);
}

#[test]
fn keyed_fields_split_at_first_colon() {
    let fields = parse_keyed_fields("Optional Deps   : bash-completion: for tab completion\n");
    assert_eq!(
        field_value(&fields, "Optional Deps"),
        Some("bash-completion: for tab completion".to_string())
    );
}

#[test]
fn keyed_fields_continuation_lines_are_appended() {
    let raw = "Optional Deps   : foo\n                  bar baz\nName : x\n";
    let fields = parse_keyed_fields(raw);
    assert_eq!(field_value(&fields, "Optional Deps"), Some("foo bar baz".to_string()));
    assert_eq!(field_value(&fields, "Name"), Some("x".to_string()));
}

#[test]
fn keyed_fields_continuation_of_empty_value() {
    let raw = "Key :\n  first\n  second\n";
    let fields = parse_keyed_fields(raw);
    assert_eq!(field_value(&fields, "Key"), Some("first second".to_string()));
}

#[test]
fn keyed_fields_lines_before_any_key_are_ignored() {
    let fields = parse_keyed_fields("stray line\nName : y\n");
    assert_eq!(fields.len(), 1);
    assert_eq!(field_value(&fields, "Name"), Some("y".to_string()));
}

#[test]
fn keyed_fields_later_key_replaces_earlier() {
    let fields = parse_keyed_fields("Name : a\nName : b\n");
    assert_eq!(fields.len(), 1);
    assert_eq!(field_value(&fields, "Name"), Some("b".to_string()));
}

#[test]
fn package_record_from_qi_output() {
    let fields = parse_keyed_fields(QI_OUTPUT);
    let record = package_record_from_fields(&fields, 9_762_243);
    assert_eq!(record.name, "bash");
    assert_eq!(record.version, "5.2.026-2");
    assert_eq!(record.description, Some("The GNU Bourne Again shell".to_string()));
    assert_eq!(record.installed_size_bytes, 9_762_243);
    assert_eq!(record.install_reason, InstallReason::Dependency);
    assert_eq!(
        record.packager,
        Some("Lukas Fleischer <lfleischer@archlinux.org>".to_string())
    );
    assert_eq!(
        record.install_date,
        Some("Mon 01 Jan 2024 10:00:00 AM UTC".to_string())
    );
    assert!(record.groups.is_empty());
    assert_eq!(
        record.depends_on,
        strings(&["readline", "libreadline.so", "glibc", "ncurses"])
    );
    assert_eq!(record.required_by, strings(&["base", "bzip2", "gzip"]));
    assert!(record.optional_for.is_empty());
}

#[test]
fn package_record_with_missing_fields() {
    let fields = parse_keyed_fields("Description :\n");
    let record = package_record_from_fields(&fields, 0);
    assert_eq!(record.name, "");
    assert_eq!(record.version, "");
    assert_eq!(record.description, None);
    assert_eq!(record.install_reason, InstallReason::Unknown);
    assert_eq!(record.packager, None);
    assert!(record.depends_on.is_empty());
}

#[test]
fn log_line_installed_with_version() {
    let action = parse_pacman_log_line(
        "[2024-01-02T10:11:12+0000] [ALPM] installed ripgrep (14.1.0-1)",
    )
    .unwrap();
    assert_eq!(action.timestamp, "2024-01-02T10:11:12+0000");
    assert_eq!(action.action, "installed");
    assert_eq!(action.name, "ripgrep");
    assert_eq!(action.version, Some("14.1.0-1".to_string()));
}

#[test]
fn log_line_upgraded_keeps_whole_version_text() {
    let action = parse_pacman_log_line(
        "[2024-01-02T10:11:12+0000] [ALPM] upgraded linux (6.6.1-1 -> 6.6.2-1)",
    )
    .unwrap();
    assert_eq!(action.action, "upgraded");
    assert_eq!(action.name, "linux");
    assert_eq!(action.version, Some("6.6.1-1 -> 6.6.2-1".to_string()));
}

#[test]
fn log_line_other_verbs() {
    let down = parse_pacman_log_line("[t] [ALPM] downgraded foo (2-1 -> 1-1)").unwrap();
    assert_eq!(down.action, "downgraded");
    let re = parse_pacman_log_line("[t] [ALPM] reinstalled bar (1-1)").unwrap();
    assert_eq!(re.action, "reinstalled");
    assert_eq!(re.name, "bar");
}

#[test]
fn log_line_without_version() {
    let action = parse_pacman_log_line("[t] [ALPM] installed baz").unwrap();
    assert_eq!(action.name, "baz");
    assert_eq!(action.version, None);
    let empty = parse_pacman_log_line("[t] [ALPM] installed baz ( )").unwrap();
    assert_eq!(empty.version, None);
}

#[test]
fn log_line_rejections() {
    assert!(parse_pacman_log_line("[t] [ALPM] removed foo (1-1)").is_none());
    assert!(parse_pacman_log_line("[t] [PACMAN] installed foo (1-1)").is_none());
    assert!(parse_pacman_log_line("garbage").is_none());
    assert!(parse_pacman_log_line("[t] [ALPM] installed ").is_none());
    assert!(parse_pacman_log_line("[t] [ALPM] installedfoo").is_none());
}

#[test]
fn log_line_timestamp_strips_all_leading_brackets() {
    let action = parse_pacman_log_line("[[x] [ALPM] installed a (1)").unwrap();
    assert_eq!(action.timestamp, "x");
}

#[test]
fn package_names_from_query_output() {
    assert_eq!(
        package_names_from_output("bash\n  coreutils  \n\nglibc\r\n"),
        strings(&["bash", "coreutils", "glibc"])
    );
    assert!(package_names_from_output("").is_empty());
    assert!(package_names_from_output("\n \n").is_empty());
}

#[test]
fn recent_actions_newest_first_across_logs() {
    let current = "[1] [ALPM] installed a (1)\n[2] [ALPM] removed b (1)\n[3] [ALPM] upgraded c (1 -> 2)\n"
        .to_string();
    let rotated = "[0] [ALPM] installed old (0)\n".to_string();
    let actions = recent_actions_from_logs(&vec![current, rotated], 25);
    let names: Vec<&str> = actions.iter().map(|a| a.name.as_str()).collect();
    assert_eq!(names, vec!["c", "a", "old"]);
}

#[test]
fn recent_actions_respect_limit() {
    let log = "[1] [ALPM] installed a (1)\n[2] [ALPM] installed b (1)\n[3] [ALPM] installed c (1)\n"
        .to_string();
    let actions = recent_actions_from_logs(&vec![log.clone()], 2);
    let names: Vec<&str> = actions.iter().map(|a| a.name.as_str()).collect();
    assert_eq!(names, vec!["c", "b"]);
    let one = recent_actions_from_logs(&vec![log], 0);
    assert_eq!(one.len(), 1);
    assert_eq!(one[0].name, "c");
}

#[test]
fn recent_actions_of_no_logs() {
    assert!(recent_actions_from_logs(&Vec::new(), 25).is_empty());
}

#[test]
fn cache_size_from_du_output() {
    assert_eq!(parse_cache_size("123456\t/var/cache/pacman/pkg\n"), Some(123456));
    assert_eq!(parse_cache_size("  42 /x"), Some(42));
    assert_eq!(parse_cache_size("+7 /x"), Some(7));
    assert_eq!(parse_cache_size("18446744073709551615"), Some(u64::MAX));
}

#[test]
fn cache_size_rejections() {
    assert_eq!(parse_cache_size(""), None);
    assert_eq!(parse_cache_size("   \n"), None);
    assert_eq!(parse_cache_size("du: cannot access"), None);
    assert_eq!(parse_cache_size("18446744073709551616 /x"), None);
    assert_eq!(parse_cache_size("-5 /x"), None);
    assert_eq!(parse_cache_size("+ /x"), None);
}

#[test]
fn cache_size_reads_back_printed_counts() {
    for n in [0u64, 9, 10, 4096, 1 << 40, u64::MAX] {
        assert_eq!(parse_cache_size(&format!("{}\t/var/cache/pacman/pkg\n", n)), Some(n));
        assert_eq!(parse_cache_size(&n.to_string()), Some(n));
    }
}

#[test]
fn size_parts_of_pacman_sizes() {
    assert_eq!(split_size("9.31 MiB"), (Some("9.31".to_string()), 2));
    assert_eq!(split_size("9,31 MiB"), (Some("9.31".to_string()), 2));
    assert_eq!(split_size("512 B"), (Some("512".to_string()), 0));
    assert_eq!(split_size("1.5 kib"), (Some("1.5".to_string()), 1));
    assert_eq!(split_size("2 KB"), (Some("2".to_string()), 1));
    assert_eq!(split_size("3 GiB extra"), (Some("3".to_string()), 3));
    assert_eq!(split_size("4 tB"), (Some("4".to_string()), 4));
    assert_eq!(split_size("4 parsecs"), (Some("4".to_string()), 0));
    assert_eq!(split_size("  77  "), (Some("77".to_string()), 0));
    assert_eq!(split_size("   "), (None, 0));
    assert_eq!(split_size(""), (None, 0));
}

/// The whole conversion of an installed size to bytes, in floating point.
fn float_size_to_bytes(raw: &str) -> u64 {
    let mut parts = raw.split_whitespace();
    let value = parts
        .next()
        .map(|part| part.replace(',', "."))
        .and_then(|part| part.parse::<f64>().ok())
        .unwrap_or(0.0);
    let unit = parts.next().unwrap_or("B").to_ascii_lowercase();
    let multiplier = match unit.as_str() {
        "b" => 1.0,
        "kib" | "kb" => 1024.0,
        "mib" | "mb" => 1024.0 * 1024.0,
        "gib" | "gb" => 1024.0 * 1024.0 * 1024.0,
        "tib" | "tb" => 1024.0_f64.powi(4),
        _ => 1.0,
    };
    (value * multiplier).round().max(0.0) as u64
}

fn split_then_scale(raw: &str) -> u64 {
    let (number, exponent) = split_size(raw);
    let value = number.and_then(|part| part.parse::<f64>().ok()).unwrap_or(0.0);
    (value * 1024.0_f64.powi(exponent as i32)).round().max(0.0) as u64
}

#[test]
fn size_parts_scale_as_the_whole_conversion() {
    for raw in [
        "9.31 MiB", "9,31 MiB", "0.00 B", "1023 B", "1.50 KiB", "2 kb", "2.5 GiB", "0.01 TiB",
        "-3 MiB", "abc MiB", "7", "", "1e3 KiB", "12.0 PB", "3,5,1 MiB", "99999999999 TiB",
    ] {
        assert_eq!(split_then_scale(raw), float_size_to_bytes(raw), "{}", raw);
    }
}
