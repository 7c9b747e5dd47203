use docker_statistics_ui::metrics_history::{HistoryCache, MetricsHistory, METRICS_HISTORY_SIZE};
use docker_statistics_ui::str_map::StrMap;
use docker_statistics_ui::text::{
    chars_of, compare_str, parse_unsigned, split_ranges, str_contains, str_eq, str_starts_with,
    TextOrder,
};

#[test]
fn str_map_keeps_keys_in_string_order() {
    let mut m: StrMap<u32> = StrMap::new();
    m.insert("b".to_string(), 2);
    m.insert("a".to_string(), 1);
    m.insert("ab".to_string(), 3);
    m.insert("B".to_string(), 4);
    assert_eq!(m.keys, vec!["B".to_string(), "a".to_string(), "ab".to_string(), "b".to_string()]);
    assert_eq!(m.vals, vec![4, 1, 3, 2]);
    assert_eq!(m.len(), 4);
}

#[test]
fn str_map_read_after_write() {
    let mut m: StrMap<String> = StrMap::new();
    m.insert("k".to_string(), "v1".to_string());
    m.insert("k".to_string(), "v2".to_string());
    assert_eq!(m.len(), 1);
    assert_eq!(m.get("k").unwrap(), "v2");
    assert!(m.contains_key("k"));
    m.remove("k");
    assert!(m.get("k").is_none());
    assert_eq!(m.len(), 0);
    m.remove("absent");
    assert_eq!(m.len(), 0);
}

#[test]
fn str_map_find_gives_insertion_point() {
    let mut m: StrMap<u8> = StrMap::new();
    m.insert("b".to_string(), 0);
    m.insert("d".to_string(), 0);
    assert_eq!(m.find("d"), Ok(1));
    assert_eq!(m.find("a"), Err(0));
    assert_eq!(m.find("c"), Err(1));
    assert_eq!(m.find("e"), Err(2));
    assert_eq!(m.key_at(0), "b");
    assert_eq!(*m.value_at(1), 0);
}

#[test]
fn str_map_clone_map_copies_entries() {
    let mut m: StrMap<String> = StrMap::new();
    m.insert("x".to_string(), "1".to_string());
    let c = m.clone_map();
    assert_eq!(c.keys, m.keys);
    assert_eq!(c.vals, m.vals);
}

#[test]
fn text_contains_and_starts_with() {
    assert!(str_contains("hello world", "o w"));
    assert!(str_contains("abc", ""));
    assert!(!str_contains("abc", "abcd"));
    assert!(!str_contains("", "a"));
    assert!(str_starts_with("ssh:gw@h:22", "ssh"));
    assert!(!str_starts_with("sh", "ssh"));
    assert!(str_eq("same", "same"));
    assert!(!str_eq("same", "Same"));
}


#[test]
fn text_compare_follows_string_order() {
    assert!(matches!(compare_str("a", "b"), TextOrder::Less));
    assert!(matches!(compare_str("b", "a"), TextOrder::Greater));
    assert!(matches!(compare_str("ab", "ab"), TextOrder::Equal));
    assert!(matches!(compare_str("ab", "abc"), TextOrder::Less));
    assert!(matches!(compare_str("Z", "a"), TextOrder::Less));
    assert!(matches!(compare_str("é", "z"), TextOrder::Greater));
}

#[test]
fn text_parse_unsigned_like_from_str() {
    assert_eq!(parse_unsigned(&chars_of("22"), 65535), Some(22));
    assert_eq!(parse_unsigned(&chars_of("+22"), 65535), Some(22));
    assert_eq!(parse_unsigned(&chars_of("0065535"), 65535), Some(65535));
    assert_eq!(parse_unsigned(&chars_of("65536"), 65535), None);
    assert_eq!(parse_unsigned(&chars_of(""), 65535), None);
    assert_eq!(parse_unsigned(&chars_of("+"), 65535), None);
    assert_eq!(parse_unsigned(&chars_of("-1"), 65535), None);
    assert_eq!(parse_unsigned(&chars_of("1a"), 65535), None);
    assert_eq!(parse_unsigned(&chars_of(" 1"), 65535), None);
}

#[test]
fn text_split_ranges_like_split() {
    let s = chars_of("a->b->");
    let r = split_ranges(&s, &['-', '>']);
    assert_eq!(r, vec![(0, 1), (3, 4), (6, 6)]);
    let s = chars_of("");
    assert_eq!(split_ranges(&s, &[':']), vec![(0, 0)]);
}

#[test]
fn history_window_holds_at_most_the_limit() {
    let mut h: MetricsHistory<i64> = MetricsHistory::new();
    assert_eq!(h.get_snapshot().len(), 0);
    for i in 0..200i64 {
        h.add(i);
    }
    let snap = h.get_snapshot();
    assert_eq!(snap.len(), METRICS_HISTORY_SIZE);
    assert_eq!(snap[0], 50);
    assert_eq!(*snap.last().unwrap(), 199);
}

#[test]
fn history_add_appends_newest_last() {
    let mut h: MetricsHistory<f64> = MetricsHistory::new();
    h.add(1.5);
    h.add(2.5);
    assert_eq!(h.get_snapshot(), vec![1.5, 2.5]);
    let copy = h.clone();
    assert_eq!(copy.get_snapshot(), vec![1.5, 2.5]);
}

#[test]
fn history_cache_window_of_given_size() {
    let mut h: HistoryCache<String> = HistoryCache::new(2);
    h.add("a".to_string());
    assert_eq!(h.get_snapshot(), vec!["a".to_string()]);
    h.add("b".to_string());
    h.add("c".to_string());
    assert_eq!(h.get_snapshot(), vec!["b".to_string(), "c".to_string()]);
}

#[test]
fn history_cache_of_one_keeps_newest() {
    let mut h: HistoryCache<u8> = HistoryCache::new(1);
    h.add(1);
    h.add(2);
    assert_eq!(h.get_snapshot(), vec![2]);
}
