use treels::config::{
    AbsolutePathOption, Classify, ColorOption, ColorScale, ColorScaleMode, Config, ConfigError,
    DisplayMode,
    IconOption, RenderCtx, SortBy,
};
use treels::decor::{get_color_for_scale, get_color_for_size, get_icon_for_file, get_type_indicator};
use treels::entry::{Entry, Node, NodeType, TreeStats};
use treels::format::{format_file_name, format_hyperlink, format_size, get_file_type_str};
use treels::config::parse_args;
use treels::config::parse_usize;
use treels::is_hidden;
use treels::order::sort_entries;
use treels::render::{render_entries_grid, render_entries_oneline, render_summary};
use treels::traverse::collect_entries;
use treels::tree::render_tree;

fn file(name: &str, size: u64, mtime: i64) -> Node {
    Node {
        name: name.to_string(),
        size,
        mtime,
        ntype: NodeType::File,
        children: Vec::new(),
        link_target: None,
        canonical: None,
    }
}

fn dir(name: &str, children: Vec<Node>) -> Node {
    Node {
        name: name.to_string(),
        size: 0,
        mtime: 0,
        ntype: NodeType::Directory,
        children,
        link_target: None,
        canonical: None,
    }
}

fn default_config() -> Config {
    parse_args(&vec!["prog".to_string()]).unwrap()
}

fn plain_ctx() -> RenderCtx {
    RenderCtx { is_tty: false, now: 1_000_000, cwd: "/tmp".to_string(), term_width: None }
}

#[test]
fn format_size_exact_values() {
    assert_eq!(format_size(0), "0.00 B");
    assert_eq!(format_size(1536), "1.50 KB");
    assert_eq!(format_size(1024 * 1024 * 1024), "1.00 GB");
    assert_eq!(format_size(10), "10.00 B");
    assert_eq!(format_size(1023), "1023.00 B");
    assert_eq!(format_size(1024), "1.00 KB");
    assert_eq!(format_size(1048576), "1.00 MB");
}

#[test]
fn hidden_names() {
    assert!(is_hidden(".env"));
    assert!(!is_hidden("note.txt"));
    assert!(!is_hidden(""));
}

#[test]
fn icons_by_extension() {
    assert_eq!(get_icon_for_file(true, "whatever"), "📁 ");
    assert_eq!(get_icon_for_file(false, "main.rs"), "🦀 ");
    assert_eq!(get_icon_for_file(false, "notes.md"), "📝 ");
    assert_eq!(get_icon_for_file(false, "photo.jpeg"), "🖼️ ");
    assert_eq!(get_icon_for_file(false, "unknown.xyz"), "📄 ");
    assert_eq!(get_icon_for_file(false, ".env"), "📄 ");
}

#[test]
fn type_indicators() {
    assert_eq!(get_type_indicator(NodeType::Directory, Classify::Auto), "/");
    assert_eq!(get_type_indicator(NodeType::Symlink, Classify::Auto), "@");
    assert_eq!(get_type_indicator(NodeType::File, Classify::Auto), "");
    assert_eq!(get_type_indicator(NodeType::Socket, Classify::Always), "=");
    assert_eq!(get_type_indicator(NodeType::Fifo, Classify::Always), "|");
    assert_eq!(get_type_indicator(NodeType::Directory, Classify::Never), "");
}

#[test]
fn type_labels() {
    assert_eq!(get_file_type_str(NodeType::Directory), "Directory");
    assert_eq!(get_file_type_str(NodeType::Symlink), "Symlink");
    assert_eq!(get_file_type_str(NodeType::File), "File");
    assert_eq!(get_file_type_str(NodeType::Fifo), "Other");
}

#[test]
fn name_quoting() {
    assert_eq!(format_file_name("plain.txt", true), "plain.txt");
    assert_eq!(format_file_name("with space.txt", true), "\"with space.txt\"");
    assert_eq!(format_file_name("with space.txt", false), "with space.txt");
}

#[test]
fn hyperlink_wrapping() {
    assert_eq!(format_hyperlink("a/b.txt", "b.txt", false, "/home"), "b.txt");
    assert_eq!(
        format_hyperlink("a/b.txt", "b.txt", true, "/home"),
        "\u{1b}]8;;file:///home/a/b.txt\u{1b}\\b.txt\u{1b}]8;;\u{1b}\\"
    );
    assert_eq!(
        format_hyperlink("/abs/b.txt", "b.txt", true, "/home"),
        "\u{1b}]8;;file:///abs/b.txt\u{1b}\\b.txt\u{1b}]8;;\u{1b}\\"
    );
}

#[test]
fn fixed_size_colors() {
    assert_eq!(get_color_for_size(10, ColorScaleMode::Fixed), "\u{1b}[38;5;46m");
    assert_eq!(get_color_for_size(2048, ColorScaleMode::Fixed), "\u{1b}[38;5;226m");
    assert_eq!(get_color_for_size(2 * 1024 * 1024, ColorScaleMode::Fixed), "\u{1b}[38;5;208m");
    assert_eq!(get_color_for_size(200 * 1024 * 1024, ColorScaleMode::Fixed), "\u{1b}[38;5;196m");
}

#[test]
fn gradient_size_color_endpoints() {
    assert_eq!(get_color_for_size(0, ColorScaleMode::Gradient), "\u{1b}[38;2;0;255;0m");
    assert_eq!(
        get_color_for_size(2 * 1024 * 1024 * 1024, ColorScaleMode::Gradient),
        "\u{1b}[38;2;255;0;0m"
    );
}

#[test]
fn sort_is_stable_and_ordered() {
    let mut v = vec![
        Entry { path: "b".into(), name: "b".into(), size: 5, mtime: 2, ntype: NodeType::File },
        Entry { path: "a1".into(), name: "a".into(), size: 1, mtime: 1, ntype: NodeType::File },
        Entry { path: "a2".into(), name: "a".into(), size: 9, mtime: 3, ntype: NodeType::File },
    ];
    sort_entries(&mut v, SortBy::Name);
    let names: Vec<&str> = v.iter().map(|e| e.name.as_str()).collect();
    assert_eq!(names, ["a", "a", "b"]);
    // stability: the two equal names keep their relative order
    assert_eq!(v[0].path, "a1");
    assert_eq!(v[1].path, "a2");
    sort_entries(&mut v, SortBy::Size);
    let sizes: Vec<u64> = v.iter().map(|e| e.size).collect();
    assert_eq!(sizes, [9, 5, 1]);
    // idempotence
    sort_entries(&mut v, SortBy::Size);
    let sizes2: Vec<u64> = v.iter().map(|e| e.size).collect();
    assert_eq!(sizes2, [9, 5, 1]);
    sort_entries(&mut v, SortBy::ModTime);
    let times: Vec<i64> = v.iter().map(|e| e.mtime).collect();
    assert_eq!(times, [3, 2, 1]);
}

#[test]
fn tree_scenario_hidden_file() {
    // a directory with one hidden file and one visible ten-byte file
    let root = dir("top", vec![file(".env", 3, 10), file("note.txt", 10, 20)]);
    let config = default_config();
    let ctx = plain_ctx();
    let mut stats = TreeStats::new();
    let lines = render_tree(&root, &config, &ctx, &mut stats);
    assert_eq!(stats.directories, 1);
    assert_eq!(stats.files, 1);
    assert_eq!(stats.total_size, 10);
    assert_eq!(lines.len(), 1);
    assert!(lines[0].contains("note.txt"));
    let (l1, l2) = render_summary(&stats, &config, false);
    assert_eq!(l1, "\n1 directories, 1 files");
    assert_eq!(l2, "Total size: 10.00 B");

    let config2 = parse_args(&vec!["prog".to_string(), "--show-hidden".to_string()]).unwrap();
    let mut stats2 = TreeStats::new();
    let lines2 = render_tree(&root, &config2, &ctx, &mut stats2);
    assert_eq!(stats2.files, 2);
    assert_eq!(lines2.len(), 2);
}

#[test]
fn flat_scenario_pattern() {
    // --pattern '\.txt$' keeps a.txt and the directory, drops b.md
    let root = dir("top", vec![file("a.txt", 1, 1), file("b.md", 1, 1), dir("sub", vec![])]);
    let config = parse_args(&vec![
        "prog".to_string(),
        "--pattern".to_string(),
        "\\.txt$".to_string(),
        "-1".to_string(),
    ])
    .unwrap();
    let mut stats = TreeStats::new();
    let entries = collect_entries(&root, "top", &config, &mut stats);
    let names: Vec<&str> = entries.iter().map(|e| e.name.as_str()).collect();
    assert_eq!(names, ["a.txt", "sub"]);
}

#[test]
fn flat_counts_with_recursion() {
    let root = dir(
        "top",
        vec![file("a", 5, 1), dir("d", vec![file("b", 7, 2), file("c", 11, 3)])],
    );
    let mut config = default_config();
    config.recurse = true;
    let mut stats = TreeStats::new();
    let entries = collect_entries(&root, "top", &config, &mut stats);
    assert_eq!(stats.directories, 2);
    assert_eq!(stats.files, 3);
    assert_eq!(stats.total_size, 5 + 7 + 11);
    assert_eq!(entries.len(), 4);
}

#[test]
fn oneline_layout() {
    let config = default_config();
    let ctx = plain_ctx();
    let entries = vec![
        Entry { path: "x".into(), name: "x".into(), size: 1, mtime: 1, ntype: NodeType::File },
        Entry { path: "y".into(), name: "y".into(), size: 2, mtime: 2, ntype: NodeType::File },
    ];
    let lines = render_entries_oneline(&entries, &config, &ctx);
    assert_eq!(lines.len(), 2);
    assert_eq!(lines[0], "x\u{1b}[0m");
    assert_eq!(lines[1], "y\u{1b}[0m");
}

#[test]
fn grid_both_directions_cover_everything() {
    let mut config = default_config();
    config.screen_width = Some(8);
    config.icons = IconOption::Never;
    let ctx = plain_ctx();
    let entries: Vec<Entry> = (0..5)
        .map(|i| Entry {
            path: format!("n{}", i),
            name: format!("n{}", i),
            size: 1,
            mtime: 1,
            ntype: NodeType::File,
        })
        .collect();
    let down = render_entries_grid(&entries, &config, &ctx).join("\n");
    config.sort_across = true;
    let across = render_entries_grid(&entries, &config, &ctx).join("\n");
    for i in 0..5 {
        let name = format!("n{}", i);
        assert_eq!(down.matches(&name).count(), 1, "down covers {}", name);
        assert_eq!(across.matches(&name).count(), 1, "across covers {}", name);
    }
    assert_ne!(down, across);
}

#[test]
fn tree_prefixes() {
    let root = dir(
        "top",
        vec![dir("inner", vec![file("deep1", 1, 1), file("deep2", 1, 1)]), file("last", 1, 1)],
    );
    let mut config = default_config();
    config.icons = IconOption::Never;
    config.classify = Classify::Never;
    let ctx = plain_ctx();
    let mut stats = TreeStats::new();
    let lines = render_tree(&root, &config, &ctx, &mut stats);
    assert_eq!(lines.len(), 4);
    assert_eq!(lines[0], "├── inner\u{1b}[0m");
    assert_eq!(lines[1], "│   ├── deep1\u{1b}[0m");
    assert_eq!(lines[2], "│   └── deep2\u{1b}[0m");
    assert_eq!(lines[3], "└── last\u{1b}[0m");
}

#[test]
fn tree_last_sibling_blank_continuation() {
    let root = dir(
        "top",
        vec![file("a", 1, 1), dir("z", vec![dir("inner", vec![file("leaf", 1, 1)])])],
    );
    let mut config = default_config();
    config.icons = IconOption::Never;
    config.classify = Classify::Never;
    let ctx = plain_ctx();
    let mut stats = TreeStats::new();
    let lines = render_tree(&root, &config, &ctx, &mut stats);
    assert_eq!(lines[0], "├── a\u{1b}[0m");
    assert_eq!(lines[1], "└── z\u{1b}[0m");
    assert_eq!(lines[2], "    └── inner\u{1b}[0m");
    assert_eq!(lines[3], "        └── leaf\u{1b}[0m");
}

#[test]
fn tree_depth_limits() {
    let root = dir("top", vec![dir("d", vec![file("deep", 1, 1)]), file("shallow", 1, 1)]);
    let mut config = default_config();
    config.icons = IconOption::Never;
    config.classify = Classify::Never;
    let ctx = plain_ctx();

    config.max_depth = Some(0);
    let mut stats0 = TreeStats::new();
    let lines0 = render_tree(&root, &config, &ctx, &mut stats0);
    assert!(lines0.is_empty());
    assert_eq!(stats0.directories, 0);

    config.max_depth = Some(1);
    let mut stats1 = TreeStats::new();
    let lines1 = render_tree(&root, &config, &ctx, &mut stats1);
    assert!(lines1.is_empty());

    config.max_depth = Some(2);
    let mut stats2 = TreeStats::new();
    let lines2 = render_tree(&root, &config, &ctx, &mut stats2);
    assert_eq!(lines2.len(), 2);
    assert!(lines2.iter().all(|l| !l.contains("deep")));
}

#[test]
fn parse_args_flags() {
    let config = parse_args(&vec![
        "prog".to_string(),
        "--show-hidden".to_string(),
        "--sort".to_string(),
        "size".to_string(),
        "-G".to_string(),
        "--no-quotes".to_string(),
        "-w".to_string(),
        "120".to_string(),
        "--absolute".to_string(),
        "follow".to_string(),
        "some/dir".to_string(),
    ])
    .unwrap();
    assert!(config.show_hidden);
    assert!(matches!(config.sort_by, SortBy::Size));
    assert!(matches!(config.display_mode, DisplayMode::Grid));
    assert!(!config.quote_names);
    assert_eq!(config.screen_width, Some(120));
    assert!(matches!(config.absolute_path, AbsolutePathOption::Follow));
    assert_eq!(config.root_path, "some/dir");
}

#[test]
fn parse_args_defaults() {
    let config = default_config();
    assert!(matches!(config.display_mode, DisplayMode::Tree));
    assert!(matches!(config.sort_by, SortBy::Name));
    assert!(matches!(config.color, ColorOption::Auto));
    assert!(config.quote_names);
    assert_eq!(config.root_path, ".");
    assert_eq!(config.max_depth, None);
}

#[test]
fn parse_args_errors() {
    let missing = parse_args(&vec!["prog".to_string(), "--sort".to_string()]);
    assert_eq!(missing.err().unwrap(), ConfigError::MissingValue);
    let invalid = parse_args(&vec!["prog".to_string(), "--sort".to_string(), "up".to_string()]);
    assert_eq!(invalid.err().unwrap(), ConfigError::InvalidValue);
    let badnum = parse_args(&vec!["prog".to_string(), "-w".to_string(), "wide".to_string()]);
    assert_eq!(badnum.err().unwrap(), ConfigError::InvalidNumber);
    let badpat = parse_args(&vec!["prog".to_string(), "--pattern".to_string(), "(".to_string()]);
    assert_eq!(badpat.err().unwrap(), ConfigError::InvalidPattern);
}

#[test]
fn parse_usize_values() {
    assert_eq!(parse_usize("0"), Some(0));
    assert_eq!(parse_usize("42"), Some(42));
    assert_eq!(parse_usize(""), None);
    assert_eq!(parse_usize("4x"), None);
    assert_eq!(parse_usize("99999999999999999999999999"), None);
}

#[test]
fn summary_colored_escapes() {
    let stats = TreeStats { directories: 2, files: 3, total_size: 1536 };
    let config = default_config();
    let (l1, l2) = render_summary(&stats, &config, true);
    assert_eq!(l1, "\u{1b}[1;34m\n2 directories, 3 files\u{1b}[0m");
    assert_eq!(l2, "\u{1b}[1;32mTotal size: 1.50 KB\u{1b}[0m");
}

#[test]
fn flat_counts_without_recursion() {
    // a flat listing counts a passing child directory even though it does
    // not descend into it, and a directory's own size contributes nothing
    let mut sub = dir("d", vec![file("b", 7, 2)]);
    sub.size = 4096;
    let root = dir("top", vec![file("a", 5, 1), sub]);
    let config = default_config();
    let mut stats = TreeStats::new();
    let entries = collect_entries(&root, "top", &config, &mut stats);
    assert_eq!(stats.directories, 2);
    assert_eq!(stats.files, 1);
    assert_eq!(stats.total_size, 5);
    assert_eq!(entries.len(), 2);
}

#[test]
fn combined_scale_concatenates_escapes() {
    // "all" joins the two complete escapes with nothing in between
    let combined = get_color_for_scale(Some(ColorScale::All), ColorScaleMode::Fixed, 1000, 0, 10);
    assert_eq!(combined, "\u{1b}[38;5;46m\u{1b}[38;5;46m");
}
