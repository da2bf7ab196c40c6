use tspan::backup::{backup_name, cleanup_old_backups, refusal, resolve_output_path, Entry};
use tspan::db::{import_record_at, ApiToken, Database, Record};
use tspan::html::{html_escape, render_admin, token_preview};
use tspan::importer::{import_from_directory, record_files, record_stem, ImportFile};
use tspan::markdown::{generate_markdown_report, PeriodShares, Shares};
use tspan::stats::{compute_stats_at, resolve_tz};
use tspan::svg_calendar::{
    color_for_seconds, color_idx_for_seconds, draw_dot_matrix_digit, draw_dot_matrix_number,
    generate_all_years_svgs, generate_all_years_svgs_on, generate_svg_calendar,
    generate_svg_calendar_on, month_label, try_generate_svg_calendar,
    try_generate_svg_calendar_on,
};

fn data(pairs: &[(&str, i64)]) -> Vec<(String, i64)> {
    pairs.iter().map(|(d, s)| (d.to_string(), *s)).collect()
}

#[test]
fn colours_grow_with_time() {
    assert_eq!(color_idx_for_seconds(0), 0);
    assert_eq!(color_for_seconds(0), "#f6f8fa");
    assert_eq!(color_for_seconds(1), "#9be9a8");
    assert_eq!(color_for_seconds(1_799), "#9be9a8");
    assert_eq!(color_for_seconds(1_800), "#f9d71c");
    assert_eq!(color_for_seconds(3_599), "#f9d71c");
    assert_eq!(color_for_seconds(3_600), "#e5534b");
    assert_eq!(color_for_seconds(-5), "#9be9a8");
    assert_eq!(
        [0, 1, 1_800, 3_600].map(color_idx_for_seconds),
        [0, 1, 2, 3]
    );
    assert_eq!(month_label(1), "Jan");
    assert_eq!(month_label(12), "Dec");
    assert_eq!(month_label(13), "");
}

#[test]
fn digits_are_drawn_as_dots() {
    let mut svg = String::new();
    draw_dot_matrix_digit(&mut svg, 1, 0, 0, 2, "#000");
    assert!(svg.contains("<rect"));
    let one = svg.matches("<rect").count();
    let mut both = String::new();
    draw_dot_matrix_number(&mut both, 11, 0, 0, 2, 1, "#000");
    assert_eq!(both.matches("<rect").count(), 2 * one);
}

#[test]
fn a_calendar_shows_its_year() {
    let days = data(&[("2020-03-01", 600), ("2020-12-31", 60)]);
    let svg = generate_svg_calendar_on(&days, Some(2020), 739_000);
    assert!(svg.starts_with("<svg"));
    assert!(svg.trim_end().ends_with("</svg>"));
    assert!(svg.contains("<title>2020-03-01: 600s (10 m 00 s)</title>"));
    assert!(svg.contains(">Mar</text>"));
    assert_eq!(svg.matches("<title>").count(), 366);
    assert_eq!(svg, try_generate_svg_calendar_on(&days, Some(2020), 739_000).unwrap());
    assert_eq!(generate_svg_calendar(&days, Some(2020)), svg);
    assert_eq!(try_generate_svg_calendar(&days, Some(2020)), Some(svg));
}

#[test]
fn every_year_with_sessions_gets_a_calendar() {
    let days = data(&[("2022-05-05", 10), ("2024-03-01", 600), ("2022-07-01", 20), ("bad", 3)]);
    let years: Vec<String> = generate_all_years_svgs_on(&days, 739_000)
        .into_iter()
        .map(|(y, _)| y)
        .collect();
    assert_eq!(years.len(), 2);
    assert!(years.contains(&"2022".to_string()) && years.contains(&"2024".to_string()));
    assert_eq!(generate_all_years_svgs(&days).len(), 2);
    assert!(generate_all_years_svgs_on(&[], 739_000).is_empty());
}

#[test]
fn a_report_has_its_sections() {
    let mut db = Database::new();
    import_record_at(&mut db, "c", 1_709_280_000, 1_709_280_600, 600, Some("vim"), None, 0).unwrap();
    let stats = compute_stats_at(&db, "c", "", "", &resolve_tz(None), 1_709_640_000).unwrap();
    let shares = Shares {
        total_ratio: "0.17".to_string(),
        total_day_ratio: "25.00".to_string(),
        past_n: stats
            .past_n
            .iter()
            .map(|_| PeriodShares {
                ratio: "1.00".to_string(),
                day_ratio: "2.00".to_string(),
            })
            .collect(),
    };
    let years = vec![("2024".to_string(), "<svg>y</svg>".to_string())];
    let report = generate_markdown_report(&stats, &shares, "<svg>all</svg>", &years);
    assert!(report.starts_with("# Total\n\n"));
    assert!(report.contains("600 seconds (0.17 %), as 10 m 00 s"));
    assert!(report.contains("1 times (25.00 % of days), 600 seconds every time"));
}

#[test]
fn markup_is_escaped() {
    assert_eq!(html_escape("<a href=\"x\">&</a>"), "&lt;a href=&quot;x&quot;&gt;&amp;&lt;/a&gt;");
    assert_eq!(html_escape("plain"), "plain");
    assert_eq!(token_preview("tspan_1234567890"), "tspan_****7890");
    assert_eq!(token_preview("short"), "****");
}

#[test]
fn the_administration_page_lists_sessions_and_tokens() {
    let session = Record {
        id: 7,
        client_id: "desk".to_string(),
        start_time: 40,
        end_time: None,
        duration_seconds: None,
        command: Some("a<b".to_string()),
        alias: None,
        process_id: None,
        status: "active".to_string(),
        created_at: 40,
    };
    let token = ApiToken {
        token: "tspan_1234567890".to_string(),
        client_id: "desk".to_string(),
        description: Some("d&d".to_string()),
        created_at: 0,
    };
    let page = render_admin(&vec![session], &vec![token], 100);
    assert!(page.contains("a&lt;b"));
    assert!(page.contains("<td>60s</td>"));
    assert!(page.contains("tspan_****7890"));
    assert!(page.contains("onclick=\"endSession(7)\""));
    assert!(page.contains("1970-01-01 00:00:40"));
}

#[test]
fn session_files_are_told_by_their_extension() {
    assert_eq!(record_stem("20210101000000.txt"), Some("20210101000000".to_string()));
    assert_eq!(record_stem(".txt"), None);
    assert_eq!(record_stem("notes.md"), None);
    let names = vec!["b.txt".to_string(), "x.md".to_string(), "a.txt".to_string()];
    assert_eq!(record_files(&names), vec!["a.txt".to_string(), "b.txt".to_string()]);
}

#[test]
fn an_import_may_name_command_and_alias() {
    let mut db = Database::new();
    let files = vec![ImportFile {
        stem: "20210101000000".to_string(),
        content: Ok("vim\n60".to_string()),
    }];
    let done = import_from_directory(&mut db, "imported", &files, Some("nvim b"), Some("edit"));
    assert_eq!((done.imported, done.failed), (1, 0));
    let row = &db.records()[0];
    assert_eq!(row.command, Some("nvim b".to_string()));
    assert_eq!(row.command_tokens, Some("[\"nvim\",\"b\"]".to_string()));
    assert_eq!(row.alias, Some("edit".to_string()));
}

#[test]
fn backups_get_a_name_of_their_own_in_a_directory() {
    // 2024-03-05 12:00:07
    let local = 1_709_640_007;
    assert_eq!(backup_name(local), "tspan-backup-20240305-120007.db");
    assert_eq!(
        resolve_output_path("out/", false, local),
        "out/tspan-backup-20240305-120007.db"
    );
    assert_eq!(
        resolve_output_path("out", true, local),
        "out/tspan-backup-20240305-120007.db"
    );
    assert_eq!(resolve_output_path("my.db", false, local), "my.db");
    assert_eq!(refusal(200), None);
    assert_eq!(refusal(204), Some("Backup request failed with status 204".to_string()));
}

fn entry(name: &str, modified: Option<i64>) -> Entry {
    Entry {
        name: name.to_string(),
        modified,
    }
}

#[test]
fn old_backups_leave_and_the_newest_stay() {
    let entries = vec![
        entry("tspan-backup-a.db", Some(10)),
        entry("notes.txt", Some(1)),
        entry("tspan-backup-b.db", Some(30)),
        entry("tspan-backup-c.db", None),
        entry("tspan-backup-d.db", Some(20)),
        entry("tspan-backup-e.db.tmp", Some(5)),
    ];
    assert_eq!(
        cleanup_old_backups(&entries, 2),
        vec!["tspan-backup-a.db".to_string(), "tspan-backup-c.db".to_string()]
    );
    assert!(cleanup_old_backups(&entries, 4).is_empty());
    assert!(cleanup_old_backups(&entries, 0).is_empty());
}
