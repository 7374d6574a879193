use cosmic_desk_log::config::{Config, Position, SurfaceMargin, WidthSpec};

#[test]
fn position_parse_names() {
    assert_eq!(Position::parse("top"), Some(Position::Top));
    assert_eq!(Position::parse("bottom"), Some(Position::Bottom));
    assert_eq!(Position::parse("TOP"), Some(Position::Top));
    assert_eq!(Position::parse("BoTToM"), Some(Position::Bottom));
}

#[test]
fn position_parse_rejects_others() {
    assert_eq!(Position::parse("left"), None);
    assert_eq!(Position::parse(""), None);
    assert_eq!(Position::parse(" top"), None);
    assert_eq!(Position::parse("topp"), None);
}

#[test]
fn position_default_is_bottom() {
    assert_eq!(Position::default(), Position::Bottom);
}

#[test]
fn width_parse_keywords() {
    assert_eq!(WidthSpec::parse("full"), Some(WidthSpec::Full));
    assert_eq!(WidthSpec::parse("FULL"), Some(WidthSpec::Full));
    assert_eq!(WidthSpec::parse("Screen"), Some(WidthSpec::Full));
    assert_eq!(WidthSpec::parse("0"), Some(WidthSpec::Full));
    assert_eq!(WidthSpec::parse("half"), Some(WidthSpec::Half));
    assert_eq!(WidthSpec::parse("  Half\t"), Some(WidthSpec::Half));
    assert_eq!(WidthSpec::default(), WidthSpec::Full);
}

#[test]
fn width_parse_pixels_are_clamped() {
    assert_eq!(WidthSpec::parse("960"), Some(WidthSpec::Pixels(960)));
    assert_eq!(WidthSpec::parse(" 960 "), Some(WidthSpec::Pixels(960)));
    assert_eq!(WidthSpec::parse("+300"), Some(WidthSpec::Pixels(300)));
    assert_eq!(WidthSpec::parse("50"), Some(WidthSpec::Pixels(120)));
    assert_eq!(WidthSpec::parse("00"), Some(WidthSpec::Pixels(120)));
    assert_eq!(WidthSpec::parse("99999"), Some(WidthSpec::Pixels(8192)));
    assert_eq!(WidthSpec::parse("4294967295"), Some(WidthSpec::Pixels(8192)));
}

#[test]
fn width_parse_rejects_others() {
    assert_eq!(WidthSpec::parse("wide"), None);
    assert_eq!(WidthSpec::parse("-5"), None);
    assert_eq!(WidthSpec::parse("+"), None);
    assert_eq!(WidthSpec::parse(""), None);
    assert_eq!(WidthSpec::parse("12 px"), None);
    assert_eq!(WidthSpec::parse("4294967296"), None);
}

#[test]
fn resolve_full_leaves_gutters() {
    assert_eq!(WidthSpec::Full.resolve(24, Some(2560)), 2512);
    assert_eq!(WidthSpec::Full.resolve(24, None), 1872);
    assert_eq!(WidthSpec::Full.resolve(0, Some(10000)), 8192);
    assert_eq!(WidthSpec::Full.resolve(100, Some(150)), 120);
}

#[test]
fn resolve_half_and_pixels() {
    assert_eq!(WidthSpec::Half.resolve(24, Some(2560)), 1256);
    assert_eq!(WidthSpec::Half.resolve(24, None), 936);
    assert_eq!(WidthSpec::Half.resolve(0, Some(200)), 120);
    assert_eq!(WidthSpec::Pixels(960).resolve(24, Some(2560)), 960);
    assert_eq!(WidthSpec::Pixels(5).resolve(24, None), 5);
}

#[test]
fn config_default_values() {
    let c = Config::default();
    assert_eq!(c.width, WidthSpec::Full);
    assert_eq!(c.height, 280);
    assert_eq!(c.position, Position::Bottom);
    assert_eq!(c.margin_left, 24);
    assert_eq!(c.margin_top, 48);
    assert_eq!(c.margin_bottom, 72);
    assert_eq!(c.max_lines, 200);
    assert!(c.journal_args.is_empty());
    assert!(c.font_size_values.is_empty());
    assert!(c.opacity_values.is_empty());
}

#[test]
fn config_parse_empty_is_default() {
    let c = Config::parse("");
    assert_eq!(c.width, WidthSpec::Full);
    assert_eq!(c.height, 280);
    assert_eq!(c.max_lines, 200);
}

#[test]
fn config_parse_readme_example() {
    let text = "# Logical size of the desk panel\n\
                width=half\n\
                height=300\n\
                \n\
                position=top\n\
                margin_left=10\n\
                margin_top=20\n\
                margin_bottom=30\n\
                font_size=14\n\
                opacity=0.5\n\
                max_lines=100\n\
                # journal_args=-p err..warning\n\
                journal_args=-p err..warning _TRANSPORT=kernel\n";
    let c = Config::parse(text);
    assert_eq!(c.width, WidthSpec::Half);
    assert_eq!(c.height, 300);
    assert_eq!(c.position, Position::Top);
    assert_eq!(c.margin_left, 10);
    assert_eq!(c.margin_top, 20);
    assert_eq!(c.margin_bottom, 30);
    assert_eq!(c.font_size_values, vec!["14".to_string()]);
    assert_eq!(c.opacity_values, vec!["0.5".to_string()]);
    assert_eq!(c.max_lines, 100);
    assert_eq!(
        c.journal_args,
        vec!["-p".to_string(), "err..warning".to_string(), "_TRANSPORT=kernel".to_string()]
    );
}

#[test]
fn config_parse_clamps_values() {
    let c = Config::parse("height=10\nmax_lines=999999\nmargin_left=-5\nmargin_top=-2147483648\nwidth=1");
    assert_eq!(c.height, 80);
    assert_eq!(c.max_lines, 5000);
    assert_eq!(c.margin_left, 0);
    assert_eq!(c.margin_top, 0);
    assert_eq!(c.width, WidthSpec::Pixels(120));
    let c = Config::parse("height=100000\nmax_lines=3");
    assert_eq!(c.height, 4096);
    assert_eq!(c.max_lines, 20);
}

#[test]
fn config_parse_later_line_wins() {
    let c = Config::parse("height=300\nheight=400\nposition=top\nposition=bottom");
    assert_eq!(c.height, 400);
    assert_eq!(c.position, Position::Bottom);
}

#[test]
fn config_parse_invalid_values_keep_earlier() {
    let c = Config::parse("height=300\nheight=tall\nwidth=960\nwidth=wide\nposition=middle\nmargin_left=x");
    assert_eq!(c.height, 300);
    assert_eq!(c.width, WidthSpec::Pixels(960));
    assert_eq!(c.position, Position::Bottom);
    assert_eq!(c.margin_left, 24);
}

#[test]
fn config_parse_ignores_comments_and_junk() {
    let c = Config::parse("  # height=100\nheight 300\nunknown=5\n=7\n\n   \nHEIGHT=500");
    assert_eq!(c.height, 280);
}

#[test]
fn config_parse_trims_keys_values_and_crlf() {
    let c = Config::parse("  height =  321 \r\n\tposition\t=\tTop\r\n");
    assert_eq!(c.height, 321);
    assert_eq!(c.position, Position::Top);
}

#[test]
fn config_parse_value_with_equals() {
    let c = Config::parse("journal_args=_TRANSPORT=kernel  -p  3");
    assert_eq!(
        c.journal_args,
        vec!["_TRANSPORT=kernel".to_string(), "-p".to_string(), "3".to_string()]
    );
    let c = Config::parse("journal_args=a\njournal_args=");
    assert!(c.journal_args.is_empty());
}

#[test]
fn config_parse_float_values_in_order() {
    let c = Config::parse("font_size=12\nfont_size=big\nopacity= 0.2 \nfont_size=40");
    assert_eq!(
        c.font_size_values,
        vec!["12".to_string(), "big".to_string(), "40".to_string()]
    );
    assert_eq!(c.opacity_values, vec!["0.2".to_string()]);
}

#[test]
fn config_parse_plus_sign_and_max() {
    let c = Config::parse("margin_bottom=+2147483647\nmargin_top=2147483648");
    assert_eq!(c.margin_bottom, 2147483647);
    assert_eq!(c.margin_top, 48);
}

#[test]
fn surface_margin_by_position() {
    let c = Config::parse("position=top\nmargin_left=5\nmargin_top=6\nmargin_bottom=7");
    assert_eq!(
        c.surface_margin(),
        SurfaceMargin { top: 6, right: 0, bottom: 0, left: 5 }
    );
    let c = Config::parse("position=bottom\nmargin_left=5\nmargin_top=6\nmargin_bottom=7");
    assert_eq!(
        c.surface_margin(),
        SurfaceMargin { top: 0, right: 0, bottom: 7, left: 5 }
    );
}

#[test]
fn panel_width_mirrors_left_margin() {
    let c = Config::default();
    assert_eq!(c.panel_width(Some(2560)), 2512);
    let c = Config::parse("width=half\nmargin_left=0");
    assert_eq!(c.panel_width(Some(3000)), 1500);
    let c = Config::parse("width=800");
    assert_eq!(c.panel_width(None), 800);
}

fn same_settings(a: &Config, b: &Config) -> bool {
    a.width == b.width
        && a.height == b.height
        && a.position == b.position
        && a.margin_left == b.margin_left
        && a.margin_top == b.margin_top
        && a.margin_bottom == b.margin_bottom
        && a.max_lines == b.max_lines
        && a.journal_args == b.journal_args
}

#[test]
fn ignored_lines_change_nothing_before_or_after() {
    let base = "width=960\nheight=300\nposition=top\nmargin_left=3\nmax_lines=50\njournal_args=-p err";
    let extra = "unknown=3\nheight=tall\n# comment\nno equals sign\nwidth=wide\nposition=left\nmargin_top=x\nmax_lines=-1\n   ";
    let reference = Config::parse(base);
    let after = Config::parse(&format!("{}\n{}", base, extra));
    let before = Config::parse(&format!("{}\n{}", extra, base));
    assert!(same_settings(&after, &reference));
    assert!(same_settings(&before, &reference));
    assert_eq!(after.font_size_values, reference.font_size_values);
    assert_eq!(before.opacity_values, reference.opacity_values);
}

#[test]
fn float_lines_only_add_texts() {
    let base = "height=300";
    let after = Config::parse(&format!("{}\nfont_size=huge\nopacity=0.9", base));
    assert!(same_settings(&after, &Config::parse(base)));
    assert_eq!(after.font_size_values, vec!["huge".to_string()]);
    assert_eq!(after.opacity_values, vec!["0.9".to_string()]);
}

#[test]
fn final_height_line_overrides() {
    let base = "height=300\nwidth=half\nheight=500";
    for (n, expected) in [(1000u32, 1000u32), (5u32, 80u32), (4294967295u32, 4096u32)] {
        let c = Config::parse(&format!("{}\nheight={}", base, n));
        assert_eq!(c.height, expected);
        assert_eq!(c.width, WidthSpec::Half);
    }
}

#[test]
fn final_journal_args_line_overrides() {
    let c = Config::parse("journal_args=-p err\nmax_lines=70\njournal_args=  -u  sshd \t");
    assert_eq!(c.journal_args, vec!["-u".to_string(), "sshd".to_string()]);
    assert_eq!(c.max_lines, 70);
}
