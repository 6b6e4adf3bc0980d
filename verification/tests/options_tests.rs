use exa::column::{Alignment, Column, Columns, SizeFormat, TimeType, TimeTypes};
use exa::dir_action::{DirAction, RecurseOptions};
use exa::filter::SortField;
use exa::fs::Dir;
use exa::misfire::{Choices, Misfire};
use exa::options::{Flags, Options};
use exa::view::{TerminalColours, TerminalWidth, View};

fn base_flags() -> Flags {
    Flags {
        long: false,
        grid: false,
        oneline: false,
        tree: false,
        across: false,
        header: false,
        binary: false,
        bytes: false,
        inode: false,
        links: false,
        blocks: false,
        group: false,
        git: false,
        extended: false,
        recurse: false,
        list_dirs: false,
        all: false,
        reverse: false,
        group_directories_first: false,
        modified: false,
        created: false,
        accessed: false,
        color_scale: false,
        xattr_capable: false,
        sort: None,
        time: None,
        level: None,
        color: None,
    }
}

#[test]
fn dir_action_deduce() {
    assert!(matches!(
        DirAction::deduce(false, false, false, None),
        Ok(DirAction::List)
    ));
    assert!(matches!(
        DirAction::deduce(false, true, false, None),
        Ok(DirAction::AsFile)
    ));
    match DirAction::deduce(true, false, false, Some("3")) {
        Ok(DirAction::Recurse(o)) => {
            assert!(!o.tree);
            assert_eq!(o.max_depth, Some(3));
        },
        other => panic!("unexpected action {:?}", other),
    }
    match DirAction::deduce(false, false, true, None) {
        Ok(DirAction::Recurse(o)) => {
            assert!(o.tree);
            assert_eq!(o.max_depth, None);
        },
        other => panic!("unexpected action {:?}", other),
    }
}

#[test]
fn recurse_level_must_be_numeric() {
    match RecurseOptions::deduce(Some("69x105"), false) {
        Err(Misfire::FailedParse(text)) => assert_eq!(text, "69x105"),
        other => panic!("unexpected result {:?}", other),
    }
    assert_eq!(Misfire::FailedParse("x".to_string()).error_code(), 3);
}

#[test]
fn too_deep_is_at_the_limit() {
    let o = RecurseOptions { tree: false, max_depth: Some(2) };
    assert!(!o.is_too_deep(1));
    assert!(o.is_too_deep(2));
    assert!(o.is_too_deep(3));
    let unlimited = RecurseOptions { tree: false, max_depth: None };
    assert!(!unlimited.is_too_deep(usize::MAX));
}

#[test]
fn treat_dirs_as_files() {
    assert!(DirAction::AsFile.treat_dirs_as_files());
    assert!(!DirAction::List.treat_dirs_as_files());
    assert!(DirAction::Recurse(RecurseOptions { tree: true, max_depth: None })
        .treat_dirs_as_files());
    assert!(!DirAction::Recurse(RecurseOptions { tree: false, max_depth: None })
        .treat_dirs_as_files());
}

#[test]
fn time_types_words_and_switches() {
    assert_eq!(
        TimeTypes::from_str("acc"),
        TimeTypes { accessed: true, modified: false, created: false }
    );
    assert_eq!(
        TimeTypes::deduce(false, true, false, None),
        TimeTypes { accessed: false, modified: false, created: true }
    );
    // Nothing asked for: the default set.
    assert_eq!(TimeTypes::deduce(false, false, false, None), TimeTypes::default());
    // A word wins over the switches.
    assert_eq!(
        TimeTypes::deduce(true, true, true, Some("created")),
        TimeTypes { accessed: false, modified: false, created: true }
    );
}

#[test]
fn size_format_switches() {
    assert_eq!(SizeFormat::deduce(true, false), SizeFormat::BinaryBytes);
    assert_eq!(SizeFormat::deduce(false, true), SizeFormat::JustBytes);
    assert_eq!(SizeFormat::deduce(false, false), SizeFormat::DecimalBytes);
    assert_eq!(SizeFormat::default(), SizeFormat::DecimalBytes);
}

#[test]
fn sort_words() {
    assert_eq!(SortField::from_str("size"), SortField::Size);
    assert_eq!(SortField::from_str("Name"), SortField::Name);
    assert_eq!(SortField::from_str("extension"), SortField::Extension);
    assert_eq!(SortField::default(), SortField::Name);
}

#[test]
fn terminal_width_resolution() {
    match TerminalWidth::deduce(Some("80"), None) {
        Ok(TerminalWidth::Requested(80)) => {},
        other => panic!("unexpected width {:?}", other),
    }
    match TerminalWidth::deduce(None, Some(120)) {
        Ok(TerminalWidth::Terminal(120)) => {},
        other => panic!("unexpected width {:?}", other),
    }
    assert!(matches!(TerminalWidth::deduce(None, None), Ok(TerminalWidth::Unset)));
    match TerminalWidth::deduce(Some("8x"), Some(120)) {
        Err(Misfire::FailedParse(text)) => assert_eq!(text, "8x"),
        other => panic!("unexpected width {:?}", other),
    }
    let w = TerminalWidth::Terminal(42);
    assert_eq!(w.as_ref(), Some(&42));
    assert_eq!(TerminalWidth::Unset.as_ref(), None);
}

#[test]
fn terminal_colour_words() {
    assert_eq!(TerminalColours::from_str("always"), TerminalColours::Always);
    assert_eq!(TerminalColours::from_str("auto"), TerminalColours::Automatic);
    assert_eq!(TerminalColours::from_str("never"), TerminalColours::Never);
    assert_eq!(TerminalColours::default(), TerminalColours::Automatic);
    assert_eq!(TerminalColours::deduce(None), TerminalColours::Automatic);
}

#[test]
fn columns_for_dir_order() {
    let cfg = Columns {
        size_format: SizeFormat::DecimalBytes,
        time_types: TimeTypes::default(),
        inode: true,
        links: true,
        blocks: true,
        group: true,
        git: true,
    };
    let repo = Dir { path: "somewhere".to_string(), git: true };
    let cols = cfg.for_dir(Some(&repo));
    assert_eq!(
        cols,
        vec![
            Column::Inode,
            Column::Permissions,
            Column::HardLinks,
            Column::FileSize(SizeFormat::DecimalBytes),
            Column::Blocks,
            Column::User,
            Column::Group,
            Column::Timestamp(TimeType::Modified),
            Column::GitStatus,
        ]
    );
    // Without a repository the status column stays out.
    let plain = Dir { path: "somewhere".to_string(), git: false };
    let cols = cfg.for_dir(Some(&plain));
    assert!(!cols.contains(&Column::GitStatus));
    // Without a directory at all, likewise.
    let cols = cfg.for_dir(None);
    assert!(!cols.contains(&Column::GitStatus));
}

#[test]
fn column_headers_and_alignment() {
    assert_eq!(Column::Permissions.header(), "Permissions");
    assert_eq!(Column::Inode.header(), "inode");
    assert_eq!(Column::GitStatus.header(), "Git");
    assert_eq!(TimeType::Accessed.header(), "Date Accessed");
    assert_eq!(TimeType::Modified.header(), "Date Modified");
    assert!(matches!(Column::Inode.alignment(), Alignment::Right));
    assert!(matches!(Column::User.alignment(), Alignment::Left));
}

#[test]
fn options_deduce_grid_by_default() {
    let flags = base_flags();
    let opts = Options::deduce(&flags, None, Some(80), vec![".".to_string()]).unwrap();
    match &opts.view {
        View::Grid(g) => {
            assert_eq!(g.console_width, 80);
            assert!(!g.across);
        },
        other => panic!("unexpected view {:?}", other),
    }
    assert!(!opts.should_scan_for_git());
}

#[test]
fn options_deduce_lines_without_width() {
    let flags = base_flags();
    let opts = Options::deduce(&flags, None, None, vec![]).unwrap();
    assert!(matches!(opts.view, View::Lines(_)));
}

#[test]
fn options_deduce_long_details() {
    let mut flags = base_flags();
    flags.long = true;
    flags.header = true;
    flags.git = true;
    let opts = Options::deduce(&flags, None, Some(80), vec![]).unwrap();
    match &opts.view {
        View::Details(d) => {
            assert!(d.header);
            let cols = d.columns.expect("the long view resolves columns");
            assert!(cols.git);
        },
        other => panic!("unexpected view {:?}", other),
    }
    assert!(opts.should_scan_for_git());
}

#[test]
fn options_deduce_long_grid_combination() {
    let mut flags = base_flags();
    flags.long = true;
    flags.grid = true;
    let opts = Options::deduce(&flags, Some("100"), None, vec![]).unwrap();
    assert!(matches!(opts.view, View::GridDetails(_)));
}

#[test]
fn long_grid_without_width_degrades_to_details() {
    // With no width to pack for, the combined view falls back to the
    // long details view, not to bare lines.
    let mut flags = base_flags();
    flags.long = true;
    flags.grid = true;
    flags.header = true;
    let opts = Options::deduce(&flags, None, None, vec![]).unwrap();
    match &opts.view {
        View::Details(d) => {
            assert!(d.header);
            assert!(d.columns.is_some());
        },
        other => panic!("unexpected view {:?}", other),
    }
}

#[test]
fn options_deduce_oneline_and_tree() {
    let mut flags = base_flags();
    flags.oneline = true;
    let opts = Options::deduce(&flags, None, Some(80), vec![]).unwrap();
    assert!(matches!(opts.view, View::Lines(_)));

    let mut flags = base_flags();
    flags.tree = true;
    let opts = Options::deduce(&flags, None, Some(80), vec![]).unwrap();
    match &opts.view {
        View::Details(d) => assert!(d.columns.is_none()),
        other => panic!("unexpected view {:?}", other),
    }
}

#[test]
fn options_deduce_bad_width_override() {
    let flags = base_flags();
    match Options::deduce(&flags, Some("wide"), None, vec![]) {
        Err(Misfire::FailedParse(text)) => assert_eq!(text, "wide"),
        other => panic!("unexpected result {:?}", other),
    }
}

#[test]
fn misfire_texts_and_codes() {
    let conflict = Misfire::Conflict("binary".to_string(), "bytes".to_string());
    assert_eq!(conflict.message(), "Option --binary conflicts with option bytes.");
    assert_eq!(conflict.error_code(), 3);
    assert!(conflict.use_stderr());

    let useless = Misfire::Useless("binary".to_string(), false, "long".to_string());
    assert_eq!(useless.message(), "Option --binary is useless without option --long.");
    let useless2 = Misfire::Useless("across".to_string(), true, "oneline".to_string());
    assert_eq!(useless2.message(), "Option --across is useless given option --oneline.");
    let useless3 = Misfire::Useless2(
        "level".to_string(),
        "recurse".to_string(),
        "tree".to_string(),
    );
    assert_eq!(
        useless3.message(),
        "Option --level is useless without options --recurse or --tree."
    );

    let help = Misfire::Help("usage text".to_string());
    assert_eq!(help.error_code(), 2);
    assert!(!help.use_stderr());
    assert!(!Misfire::Version.use_stderr());
    assert_eq!(
        Misfire::FailedGlobPattern("bad".to_string()).message(),
        "Failed to parse glob pattern: bad"
    );
}

#[test]
fn choices_describe() {
    let c = Choices(vec!["always".to_string(), "auto".to_string(), "never".to_string()]);
    assert_eq!(c.describe(), "(choices: always auto never)");
}
