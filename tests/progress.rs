use rg_launcher::progress::parse_ytdl_output_line;

#[test]
fn full_progress_line() {
    let ev = parse_ytdl_output_line("[download]  45.3% of ~  10.00MiB at    2.00MiB/s ETA 00:05 (frag 3/10)")
        .unwrap();
    assert_eq!(ev.percent_tenths, Some(453));
    assert_eq!(ev.speed.as_deref(), Some("2.00MiB/s"));
    assert_eq!(ev.eta_secs, Some(5));
}

#[test]
fn finished_line() {
    let ev = parse_ytdl_output_line("[download] 100% of   10.00MiB in 00:00:03 at 2.95MiB/s").unwrap();
    assert_eq!(ev.percent_tenths, Some(1000));
    assert_eq!(ev.speed.as_deref(), Some("2.95MiB/s"));
    assert_eq!(ev.eta_secs, None);
}

#[test]
fn hours_in_eta() {
    let ev = parse_ytdl_output_line("[download]   0.5% of 2.00GiB at 1.00MiB/s ETA 1:02:03").unwrap();
    assert_eq!(ev.percent_tenths, Some(5));
    assert_eq!(ev.eta_secs, Some(3723));
}

#[test]
fn unknown_speed_and_eta() {
    let ev = parse_ytdl_output_line("[download]  12.0% of ~ 1.00MiB at Unknown B/s ETA Unknown").unwrap();
    assert_eq!(ev.percent_tenths, Some(120));
    assert_eq!(ev.speed, None);
    assert_eq!(ev.eta_secs, None);
}

#[test]
fn unrecognised_lines() {
    assert!(parse_ytdl_output_line("").is_none());
    assert!(parse_ytdl_output_line("   ").is_none());
    assert!(parse_ytdl_output_line("[youtube] abc: Downloading webpage").is_none());
    assert!(parse_ytdl_output_line("[download] Destination: My Video.mp4").is_none());
    assert!(parse_ytdl_output_line("[downl").is_none());
    assert!(parse_ytdl_output_line("[download] 1x5%").is_none());
}

#[test]
fn percent_above_hundred_is_not_a_percent() {
    assert!(parse_ytdl_output_line("[download] 100.1%").is_none());
    assert!(parse_ytdl_output_line("[download] 250%").is_none());
    assert_eq!(parse_ytdl_output_line("[download] 7%").unwrap().percent_tenths, Some(70));
}

#[test]
fn partial_line_keeps_what_it_has() {
    let ev = parse_ytdl_output_line("[download]  61.9% of 3.00MiB at").unwrap();
    assert_eq!(ev.percent_tenths, Some(619));
    assert_eq!(ev.speed, None);
    let ev = parse_ytdl_output_line("[download] xx at 5.0KiB/s\t").unwrap();
    assert_eq!(ev.percent_tenths, None);
    assert_eq!(ev.speed.as_deref(), Some("5.0KiB/s"));
}

#[test]
fn speed_keeps_non_ascii_text() {
    let ev = parse_ytdl_output_line("[download] 1.0% at 3ÄB/s").unwrap();
    assert_eq!(ev.speed.as_deref(), Some("3ÄB/s"));
}
