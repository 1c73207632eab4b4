use handterm::font::FontBootstrapMetrics;
use handterm::numerals::{parse_u64_str, parse_usize_str};
use handterm::metrics_cache::{
    cached_cell_width, cached_font_metrics, cell_width_cache_content, cell_width_cache_key,
    font_metrics_cache_content,
};

fn size_key(font_size_pt: f64) -> String {
    format!("{font_size_pt:.2}")
}

fn sample_metrics(path: &str, cell_width: usize, cell_height: usize, baseline: usize) -> FontBootstrapMetrics {
    FontBootstrapMetrics {
        font_path: path.to_string(),
        cell_width,
        cell_height,
        baseline,
    }
}

fn save_width(cache: &str, path: &str, size: f64, dpi: u32, signature: &str, width: usize) -> String {
    cell_width_cache_content(cache, path, &size_key(size), dpi, signature, width)
}

fn load_width(cache: &str, path: &str, size: f64, dpi: u32, signature: &str) -> Option<usize> {
    cached_cell_width(cache, &cell_width_cache_key(path, &size_key(size), dpi, signature))
}

#[test]
fn cell_width_cache_roundtrips_and_replaces_stale_signatures() {
    let cache = save_width("", "/fonts/mono.ttf", 11.0, 96, "sig-1", 8);
    assert_eq!(load_width(&cache, "/fonts/mono.ttf", 11.0, 96, "sig-1"), Some(8));

    // A different DPI is a separate key and coexists.
    let cache = save_width(&cache, "/fonts/mono.ttf", 11.0, 192, "sig-1", 16);
    assert_eq!(load_width(&cache, "/fonts/mono.ttf", 11.0, 192, "sig-1"), Some(16));

    // Re-measuring with a new font signature replaces the stale entry for
    // the same path/size/dpi rather than accumulating.
    let cache = save_width(&cache, "/fonts/mono.ttf", 11.0, 96, "sig-2", 9);
    assert_eq!(load_width(&cache, "/fonts/mono.ttf", 11.0, 96, "sig-1"), None);
    assert_eq!(load_width(&cache, "/fonts/mono.ttf", 11.0, 96, "sig-2"), Some(9));
    // The 192-DPI entry is untouched by the 96-DPI rewrite.
    assert_eq!(load_width(&cache, "/fonts/mono.ttf", 11.0, 192, "sig-1"), Some(16));

    assert_eq!(
        cache.lines().filter(|l| !l.is_empty()).count(),
        2,
        "stale same-key entries should be pruned: {cache:?}"
    );
}

#[test]
fn cell_width_cache_misses_on_signature_mismatch() {
    let cache = save_width("", "/fonts/mono.ttf", 11.0, 96, "sig-1", 8);
    assert_eq!(load_width(&cache, "/fonts/mono.ttf", 11.0, 96, "sig-other"), None);
}

#[test]
fn cell_width_cache_lines_are_key_then_width() {
    let key = cell_width_cache_key("/f.ttf", "11.00", 96, "1:2");
    assert_eq!(key, "/f.ttf\t11.00\t96\t1:2");
    let cache = save_width("junk\n", "/f.ttf", 11.0, 96, "1:2", 0);
    assert_eq!(cache, "junk\n/f.ttf\t11.00\t96\t1:2\t0\n");
    // A zero width reads back as one cell.
    assert_eq!(cached_cell_width(&cache, &key), Some(1));
    assert_eq!(cached_cell_width(&format!("{key}\tbad\n{key}\t+7\n"), &key), Some(7));
}

#[test]
fn font_metrics_cache_roundtrips_and_replaces_existing_entries() {
    let size = size_key(11.0);
    let cache = font_metrics_cache_content(
        "",
        "JetBrains Mono",
        &size,
        96,
        &sample_metrics("/fonts/old.ttf", 8, 16, 12),
    );
    let cache = font_metrics_cache_content(
        &cache,
        "JetBrains Mono",
        &size,
        96,
        &sample_metrics("/fonts/new.ttf", 9, 17, 13),
    );
    let cache = font_metrics_cache_content(
        &cache,
        "JetBrains Mono",
        &size,
        144,
        &sample_metrics("/fonts/hidpi.ttf", 13, 26, 20),
    );

    assert_eq!(
        cached_font_metrics(&cache, "JetBrains Mono", &size, 96)
            .expect("96 DPI metrics should load")
            .font_path,
        "/fonts/new.ttf"
    );
    let hidpi = cached_font_metrics(&cache, "JetBrains Mono", &size, 144)
        .expect("144 DPI metrics should load");
    assert_eq!(hidpi.cell_width, 13);
    assert_eq!(hidpi.cell_height, 26);
    assert_eq!(hidpi.baseline, 20);
    assert_eq!(
        cache,
        "JetBrains Mono\t11.00\t96\t9\t17\t13\t/fonts/new.ttf\nJetBrains Mono\t11.00\t144\t13\t26\t20\t/fonts/hidpi.ttf\n"
    );
}

#[test]
fn malformed_font_metrics_cache_entries_are_ignored() {
    let cache = "bad line\n\
                 JetBrains Mono\t11.00\t96\tnot-a-number\t16\t12\t/fonts/bad.ttf\n\
                 JetBrains Mono\t11.00\t96\t8\t16\t12\t/fonts/good.ttf\n";

    let metrics = cached_font_metrics(cache, "JetBrains Mono", &size_key(11.0), 96)
        .expect("valid metrics should still load");
    assert_eq!(metrics.font_path, "/fonts/good.ttf");
    assert_eq!(metrics.cell_width, 8);
    assert_eq!(metrics.cell_height, 16);
    assert_eq!(metrics.baseline, 12);
}

#[test]
fn font_metrics_cache_trims_the_entry_and_keeps_other_keys() {
    let cache = font_metrics_cache_content(
        "Other\t11.00\t96\t1\t2\t3\t/o.ttf\r\nshort\n",
        "Mono",
        "12.50",
        96,
        &sample_metrics("/m.ttf  ", 0, 0, 0),
    );
    assert_eq!(
        cache,
        "Other\t11.00\t96\t1\t2\t3\t/o.ttf\nshort\nMono\t12.50\t96\t0\t0\t0\t/m.ttf\n"
    );
    let m = cached_font_metrics(&cache, "Mono", "12.50", 96).unwrap();
    assert_eq!((m.cell_width, m.cell_height, m.baseline), (1, 1, 0));
    assert_eq!(m.font_path, "/m.ttf");
    assert!(cached_font_metrics(&cache, "Mono", "12.50", 72).is_none());
}

#[test]
fn numbers_parse_like_std() {
    for s in ["0", "42", "+7", "", "+", "-1", "1a", " 1", "007", "18446744073709551615", "18446744073709551616"] {
        assert_eq!(parse_usize_str(s), s.parse::<usize>().ok(), "{s:?}");
        assert_eq!(parse_u64_str(s), s.parse::<u64>().ok(), "{s:?}");
    }
}
