use pathtracer::progressbar::ProgressBar;

#[test]
fn new_bar_has_nothing_done() {
    let bar = ProgressBar::new("Rendering".to_string(), 225);
    assert_eq!(bar.total(), 225);
    assert_eq!(bar.current(), 0);
    assert_eq!(bar.width(), 50);
    assert_eq!(bar.prefix(), "Rendering");
    assert_eq!(bar.suffix(), "Complete");
    assert_eq!(bar.fill(), '█');
    assert_eq!(bar.empty(), '░');
    assert!(!bar.is_complete());
}

#[test]
fn increment_counts_up_to_the_total_and_stays_there() {
    let mut bar = ProgressBar::new("Rendering".to_string(), 3);
    bar.increment();
    assert_eq!(bar.current(), 1);
    assert!(!bar.is_complete());
    bar.increment();
    assert_eq!(bar.current(), 2);
    bar.increment();
    assert_eq!(bar.current(), 3);
    assert!(bar.is_complete());
    bar.increment();
    bar.increment();
    assert_eq!(bar.current(), 3);
    assert_eq!(bar.total(), 3);
    assert!(bar.is_complete());
}

#[test]
fn bar_of_no_steps_is_never_complete() {
    let mut bar = ProgressBar::new(String::new(), 0);
    assert!(!bar.is_complete());
    bar.increment();
    assert_eq!(bar.current(), 0);
    assert!(!bar.is_complete());
    assert_eq!(bar.prefix(), "");
}

#[test]
fn bar_of_the_most_steps_does_not_overflow() {
    let mut bar = ProgressBar::new("Rendering".to_string(), u32::MAX);
    bar.increment();
    assert_eq!(bar.current(), 1);
    assert_eq!(bar.total(), u32::MAX);
}

const ANSI_BOLD: &str = "\x1b[1m";
const ANSI_GREEN: &str = "\x1b[92m";
const ANSI_RESET: &str = "\x1b[0m";

/// The line of the bar as it is drawn with the formatting of the standard
/// library.
fn line_by_format(bar: &ProgressBar) -> String {
    let percent =
        if bar.total() > 0 { bar.current() as f64 / bar.total() as f64 } else { 0.0 };
    let filled_width = (bar.width() as f64 * percent) as u32;
    let drawn = format!(
        "{}{}",
        bar.fill().to_string().repeat(filled_width as usize),
        bar.empty().to_string().repeat(bar.width() as usize - filled_width as usize)
    );
    let mut output = format!(
        "\r{}{}{} {}{}{}",
        ANSI_BOLD,
        bar.prefix(),
        ANSI_RESET,
        ANSI_GREEN,
        drawn,
        ANSI_RESET
    );
    output.push_str(&format!(" {:.1}%", percent * 100.0));
    output.push_str(&format!(" ({}/{})", bar.current(), bar.total()));
    if percent >= 1.0 {
        output.push_str(&format!(" {}{}{}{}", ANSI_GREEN, ANSI_BOLD, bar.suffix(), ANSI_RESET));
    }
    output
}

fn line_by_the_bar(bar: &ProgressBar) -> String {
    let percent =
        if bar.total() > 0 { bar.current() as f64 / bar.total() as f64 } else { 0.0 };
    let filled_width = (bar.width() as f64 * percent) as u32;
    bar.render(filled_width, &format!("{:.1}", percent * 100.0))
}

#[test]
fn line_shows_prefix_bar_share_and_count() {
    let mut bar = ProgressBar::new("Rendering".to_string(), 4);
    bar.increment();
    let line = bar.render(12, "25.0");
    let expected = format!(
        "\r\x1b[1mRendering\x1b[0m \x1b[92m{}{}\x1b[0m 25.0% (1/4)",
        "█".repeat(12),
        "░".repeat(38)
    );
    assert_eq!(line, expected);
}

#[test]
fn line_of_finished_work_ends_with_the_suffix() {
    let mut bar = ProgressBar::new("Rendering".to_string(), 2);
    bar.increment();
    bar.increment();
    let line = bar.render(50, "100.0");
    let expected = format!(
        "\r\x1b[1mRendering\x1b[0m \x1b[92m{}\x1b[0m 100.0% (2/2) \x1b[92m\x1b[1mComplete\x1b[0m",
        "█".repeat(50)
    );
    assert_eq!(line, expected);
}

#[test]
fn line_is_that_of_the_standard_formatting_at_every_step() {
    for total in [0u32, 1, 2, 3, 7, 50, 100, 225] {
        let mut bar = ProgressBar::new("Rendering".to_string(), total);
        assert_eq!(line_by_the_bar(&bar), line_by_format(&bar));
        for _ in 0..total + 1 {
            bar.increment();
            assert_eq!(line_by_the_bar(&bar), line_by_format(&bar));
        }
    }
}

#[test]
fn bar_never_shows_more_than_its_width() {
    let bar = ProgressBar::new(String::new(), 9);
    let line = bar.render(70, "");
    let expected = format!("\r\x1b[1m\x1b[0m \x1b[92m{}\x1b[0m % (0/9)", "█".repeat(50));
    assert_eq!(line, expected);
    let none = bar.render(0, "0.0");
    let expected = format!("\r\x1b[1m\x1b[0m \x1b[92m{}\x1b[0m 0.0% (0/9)", "░".repeat(50));
    assert_eq!(none, expected);
}
