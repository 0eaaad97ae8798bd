use distribution::histogram::{percentage, ColumnWidths, HistogramWriter};
use distribution::pair::Pair;
use distribution::rank::rank_top;
use distribution::settings::Settings;

fn args(opts: &[&str]) -> Vec<String> {
    let mut temp_vec = Vec::new();
    temp_vec.push("test".to_string());
    temp_vec.push("--rcfile=/dev/null".to_string());
    for o in opts {
        temp_vec.push(o.to_string());
    }
    temp_vec
}

fn settings(opts: &[&str]) -> Settings {
    Settings::new(&args(opts), &Vec::new()).unwrap()
}

#[test]
fn histogram_new() {
    let s = settings(&[]);
    let h = HistogramWriter::new(s);
    assert_eq!(h.height, 15);
    assert_eq!(h.width, 80);
}

#[test]
fn write_header() {
    let s = settings(&["--width=10"]);
    let h = HistogramWriter::new(s);
    let c = ColumnWidths { key: 3, token: 3, pct: 3 };

    let header = h.write_header(c);

    assert_eq!(header, "Key| Ct (Pct) Histogram\n---|------\n");
}

#[test]
fn histogram_bar_one_char() {
    let s = settings(&[]);
    let h = HistogramWriter::new(s);
    let bar = h.histogram_bar(16, 32, 8);
    assert_eq!(bar, "-----------------");
}

#[test]
fn histogram_bar_two_char() {
    let s = settings(&["--char==>"]);
    let h = HistogramWriter::new(s);
    let bar = h.histogram_bar(16, 32, 8);
    assert_eq!(bar, "================>");
}

#[test]
fn histogram_bar_partial_block() {
    let s = settings(&["--char=pb"]);
    let h = HistogramWriter::new(s);
    let bar = h.histogram_bar(100, 10, 55);
    assert_eq!(bar, "\u{2588}\u{2588}\u{2588}\u{2588}\u{2588}\u{258b}");
}

#[test]
fn write_histogram_empty() {
    let s = settings(&["--graph=kv", "--width=15"]);
    let h = HistogramWriter::new(s);

    let mut counts: Vec<Pair> = Vec::new();
    let hist = h.write_histogram(&mut counts).body;

    assert_eq!(hist, "");
}

#[test]
fn write_histogram_two_tokens() {
    let s = settings(&["--graph=kv", "--width=15"]);
    let h = HistogramWriter::new(s);

    let mut counts: Vec<Pair> = vec![Pair::new(1, "a"), Pair::new(2, "b")];
    let hist = h.write_histogram(&mut counts).body;

    assert_eq!(hist, "b|2 (66.67%) --\na|1 (33.33%) -\n");
}

#[test]
fn write_histogram_header_widths() {
    let s = settings(&["--width=15"]);
    let h = HistogramWriter::new(s);
    let mut counts: Vec<Pair> = vec![Pair::new(1, "a"), Pair::new(2, "b")];
    let out = h.write_histogram(&mut counts);
    assert_eq!(out.header, "Key|Ct    (Pct) Histogram\n-|-------------\n");
    assert_eq!(counts[0], Pair::new(2, "b"));
}

#[test]
fn write_histogram_truncates_to_height() {
    let s = settings(&["--width=30", "--height=2"]);
    let h = HistogramWriter::new(s);
    let mut counts: Vec<Pair> =
        vec![Pair::new(1, "a"), Pair::new(3, "c"), Pair::new(2, "b"), Pair::new(4, "dd")];
    let out = h.write_histogram(&mut counts);
    // shares are of the total of all four (10), bars of the largest shown (4)
    assert_eq!(
        out.body,
        "dd|4 (40.00%) ----------------\n c|3 (30.00%) ------------\n"
    );
    assert_eq!(counts.len(), 4);
    assert_eq!(counts[0], Pair::new(4, "dd"));
    assert_eq!(counts[1], Pair::new(3, "c"));
}

#[test]
fn write_histogram_colours() {
    let s = settings(&["--width=20", "--palette=0,1,2,3,4"]);
    let h = HistogramWriter::new(s);
    let mut counts: Vec<Pair> = vec![Pair::new(1, "a"), Pair::new(1, "b")];
    let out = h.write_histogram(&mut counts);
    assert_eq!(
        out.body,
        "b\u{1b}[0m|\u{1b}[2m1 \u{1b}[3m(50.00%)\u{1b}[4m -------\u{1b}[1m\n\
         a\u{1b}[0m|\u{1b}[2m1 \u{1b}[3m(50.00%)\u{1b}[4m -------\u{1b}[0m\n"
    );
}

#[test]
fn write_histogram_all_zero_values() {
    let s = settings(&["--width=20"]);
    let h = HistogramWriter::new(s);
    let mut counts: Vec<Pair> = vec![Pair::new(0, "a")];
    let out = h.write_histogram(&mut counts);
    assert_eq!(out.body, "a|0 (0.00%) \n");
}

#[test]
fn write_histogram_narrow_width_drops_bar() {
    let s = settings(&["--width=5"]);
    let h = HistogramWriter::new(s);
    let mut counts: Vec<Pair> = vec![Pair::new(5, "key")];
    let out = h.write_histogram(&mut counts);
    assert_eq!(out.body, "key|5 (100.00%) -\n");
}

#[test]
fn histogram_bar_zero_value_and_zero_max() {
    let h = HistogramWriter::new(settings(&[]));
    assert_eq!(h.histogram_bar(10, 20, 0), "-");
    assert_eq!(h.histogram_bar(0, 20, 0), "");
}

#[test]
fn histogram_bar_partial_block_thresholds() {
    let h = HistogramWriter::new(settings(&["--char=pb"]));
    // exactly one eighth left over: no partial glyph
    assert_eq!(h.histogram_bar(8, 1, 1), "");
    // three eighths left over
    assert_eq!(h.histogram_bar(8, 1, 3), "\u{258c}");
    assert_eq!(h.histogram_bar(8, 2, 8), "\u{2588}\u{2588}");
}

#[test]
fn histogram_bar_dot_and_unicode() {
    let h = HistogramWriter::new(settings(&["--char=dt"]));
    assert_eq!(h.histogram_bar(2, 4, 1), "\u{2022}\u{2022}\u{2022}");
    let h = HistogramWriter::new(settings(&["--char=\u{2652}"]));
    assert_eq!(h.histogram_bar(2, 2, 1), "\u{2652}\u{2652}");
}

#[test]
fn percentage_rounding() {
    assert_eq!(percentage(2, 3), "(66.67%)");
    assert_eq!(percentage(1, 3), "(33.33%)");
    assert_eq!(percentage(1, 8), "(12.50%)");
    assert_eq!(percentage(3, 20000), "(0.02%)");
    assert_eq!(percentage(1, 20000), "(0.00%)");
    assert_eq!(percentage(5, 5), "(100.00%)");
    assert_eq!(percentage(0, 0), "(0.00%)");
}

#[test]
fn shares_of_shown_rows_stay_within_total() {
    let h = HistogramWriter::new(settings(&["--width=40", "--height=2"]));
    let mut counts: Vec<Pair> = vec![Pair::new(1, "a"), Pair::new(1, "b"), Pair::new(2, "c")];
    let out = h.write_histogram(&mut counts);
    assert!(out.body.contains("(50.00%)"));
    assert!(out.body.contains("(25.00%)"));
    assert_eq!(out.body.lines().count(), 2);
}

#[test]
fn rank_top_is_idempotent() {
    let mut v = vec![Pair::new(1, "x"), Pair::new(5, "a"), Pair::new(5, "b"), Pair::new(2, "c")];
    let k = rank_top(&mut v, 3);
    assert_eq!(k, 3);
    assert_eq!(v[0], Pair::new(5, "b"));
    assert_eq!(v[1], Pair::new(5, "a"));
    assert_eq!(v[2], Pair::new(2, "c"));
    let mut first: Vec<Pair> = v.iter().take(k).map(|p| p.duplicate()).collect();
    let k2 = rank_top(&mut first, 3);
    assert_eq!(k2, 3);
    assert_eq!(first, vec![Pair::new(5, "b"), Pair::new(5, "a"), Pair::new(2, "c")]);
    let mut short = vec![Pair::new(1, "a")];
    assert_eq!(rank_top(&mut short, 10), 1);
}

#[test]
fn write_histogram_sorts_every_pair() {
    let h = HistogramWriter::new(settings(&["--width=30", "--height=1"]));
    let mut counts: Vec<Pair> =
        vec![Pair::new(1, "a"), Pair::new(3, "c"), Pair::new(2, "b"), Pair::new(2, "bb")];
    let first = h.write_histogram(&mut counts);
    assert_eq!(
        counts,
        vec![Pair::new(3, "c"), Pair::new(2, "bb"), Pair::new(2, "b"), Pair::new(1, "a")]
    );
    // rendering again changes nothing
    let second = h.write_histogram(&mut counts);
    assert_eq!(first.body, second.body);
    assert_eq!(first.header, second.header);
    assert_eq!(counts[3], Pair::new(1, "a"));
    // another order of the same pairs ends the same way
    let mut other: Vec<Pair> =
        vec![Pair::new(2, "bb"), Pair::new(1, "a"), Pair::new(2, "b"), Pair::new(3, "c")];
    let third = h.write_histogram(&mut other);
    assert_eq!(other, counts);
    assert_eq!(third.body, first.body);
}
