use truncus::paging::{batches, clamped_param, pages, param_or, parse_u64, parse_usize};
use truncus::pipeline::upsert_batches;
use truncus::services::embed_batches;

#[test]
fn pages_round_up() {
    assert_eq!(pages(0, 20), 0);
    assert_eq!(pages(40, 20), 2);
    assert_eq!(pages(45, 20), 3);
    assert_eq!(pages(7, 0), 7);
    assert_eq!(pages(7, -3), 7);
    assert_eq!(pages(-5, 20), 0);
    assert_eq!(pages(-30, 20), 0);
}

#[test]
fn parse_agrees_with_std() {
    let inputs = [
        "", "+", "+5", "-5", "007", "12a", " 1", "1 ", "0", "42",
        "18446744073709551615", "18446744073709551616", "4294967296", "٣",
    ];
    for s in inputs {
        assert_eq!(parse_usize(s), s.parse::<usize>().ok(), "{s:?}");
        assert_eq!(parse_u64(s), s.parse::<u64>().ok(), "{s:?}");
    }
}

#[test]
fn numeric_params_fall_back_and_cap() {
    assert_eq!(clamped_param(Some("100"), 8, 50), 50);
    assert_eq!(clamped_param(Some("12"), 8, 50), 12);
    assert_eq!(clamped_param(Some("x"), 8, 50), 8);
    assert_eq!(clamped_param(None, 8, 50), 8);
    assert_eq!(param_or(Some("7"), 0), 7);
    assert_eq!(param_or(Some("-1"), 0), 0);
    assert_eq!(param_or(None, 3), 3);
}

fn std_ranges(n: usize, size: usize) -> Vec<(usize, usize)> {
    let items: Vec<usize> = (0..n).collect();
    items.chunks(size).map(|c| (c[0], c[c.len() - 1] + 1)).collect()
}

#[test]
fn batches_agree_with_slice_chunks() {
    for n in [0, 1, 19, 20, 21, 499, 500, 501, 1001] {
        for size in [1, 20, 500] {
            assert_eq!(batches(n, size), std_ranges(n, size), "n={n} size={size}");
        }
    }
    assert_eq!(upsert_batches(1001), vec![(0, 500), (500, 1000), (1000, 1001)]);
    assert_eq!(embed_batches(41), vec![(0, 20), (20, 40), (40, 41)]);
    assert!(upsert_batches(0).is_empty());
}
