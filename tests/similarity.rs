use image_similarity::error::{ErrorKind, ImageSimilarityError, Parameter};
use image_similarity::files::{default_extensions, get_extension, has_allowed_extension, split_on};
use image_similarity::fingerprint::Fingerprint;
use image_similarity::preprocess::{plan_fingerprint, GrayConversion};
use image_similarity::ranking::{rank_order, similarity_directory, similarity_file_directory};
use image_similarity::score::{similarity, Score};

fn fp(s: &str) -> Fingerprint {
    Fingerprint::from_bit_str(s).unwrap()
}

fn value(s: Score) -> f64 {
    s.matching as f64 / s.total as f64
}

fn strings(v: &[&str]) -> Vec<String> {
    v.iter().map(|s| s.to_string()).collect()
}

#[test]
fn score_of_example_strings() {
    let s = similarity(&fp("111"), &fp("101"));
    assert_eq!(s, Score { matching: 2, total: 3 });
    assert!((value(s) - 0.6667).abs() < 1e-4);
}

#[test]
fn score_identity() {
    let a = fp("0110100111");
    let s = similarity(&a, &a);
    assert_eq!(s.matching, s.total);
    assert_eq!(value(s), 1.0);
}

#[test]
fn score_symmetric() {
    let a = fp("0110100111");
    let b = fp("1110000101");
    assert_eq!(similarity(&a, &b), similarity(&b, &a));
    assert_eq!(similarity(&a, &b), Score { matching: 7, total: 10 });
}

#[test]
fn score_in_unit_range() {
    let a = fp("0000");
    let b = fp("1111");
    let s = similarity(&a, &b);
    assert_eq!(value(s), 0.0);
    assert!(value(similarity(&a, &fp("0001"))) <= 1.0);
}

#[test]
fn score_length_mismatch_is_zero() {
    let s = similarity(&fp("101"), &fp("1010"));
    assert_eq!(s.matching, 0);
    assert_eq!(value(s), 0.0);
}

#[test]
fn score_of_empty_fingerprints_is_zero() {
    let s = similarity(&fp(""), &fp(""));
    assert_eq!(s, Score { matching: 0, total: 1 });
}

#[test]
fn score_ordering() {
    let a = Score { matching: 1, total: 2 };
    let b = Score { matching: 2, total: 4 };
    let c = Score { matching: 2, total: 3 };
    assert!(a.ge(&b) && b.ge(&a));
    assert!(c.ge(&a));
    assert!(!a.ge(&c));
}

#[test]
fn bit_text_round_trip() {
    let a = fp("0011010");
    assert_eq!(a.bits, vec![false, false, true, true, false, true, false]);
    assert_eq!(a.to_bit_string(), "0011010");
    assert_eq!(a.len(), 7);
    assert!(Fingerprint::from_bit_str("10x1").is_none());
}

#[test]
fn block_is_read_row_by_row() {
    // a 3 x 3 map; the 2 x 2 block holds positions 0, 1, 3 and 4
    let above = vec![true, false, true, false, false, true, true, true, true];
    let f = Fingerprint::from_thresholds(&above, 3, 2);
    assert_eq!(f.bits, vec![true, false, false, false]);
    let plan = plan_fingerprint(3, 2, 1).unwrap();
    assert_eq!(plan.fingerprint(&above), f);
    let whole = Fingerprint::from_thresholds(&above, 3, 3);
    assert_eq!(whole.bits, above);
}

#[test]
fn fingerprint_of_same_map_is_identical() {
    let above: Vec<bool> = (0..64 * 64).map(|i| (i * 7) % 5 < 2).collect();
    let plan = plan_fingerprint(64, 16, 3).unwrap();
    let a = plan.fingerprint(&above);
    let b = plan.fingerprint(&above);
    assert_eq!(a.len(), 256);
    assert_eq!(a, b);
}

#[test]
fn plan_conversions() {
    assert_eq!(plan_fingerprint(64, 16, 1).unwrap().conversion, GrayConversion::Keep);
    assert_eq!(plan_fingerprint(64, 16, 3).unwrap().conversion, GrayConversion::FromRgb);
    assert_eq!(plan_fingerprint(64, 16, 4).unwrap().conversion, GrayConversion::FromRgba);
    let plan = plan_fingerprint(64, 16, 4).unwrap();
    assert_eq!((plan.length, plan.dct_length), (64, 16));
}

#[test]
fn plan_rejects_bad_length() {
    let e = plan_fingerprint(0, 16, 3).unwrap_err();
    assert_eq!(e.kind, ErrorKind::InvalidParameter { parameter: Parameter::Length, value: 0 });
    let e = plan_fingerprint(-5, -1, 2).unwrap_err();
    assert_eq!(e.kind, ErrorKind::InvalidParameter { parameter: Parameter::Length, value: -5 });
}

#[test]
fn plan_rejects_bad_dct_length() {
    let e = plan_fingerprint(64, 0, 3).unwrap_err();
    assert_eq!(e.kind, ErrorKind::InvalidParameter { parameter: Parameter::DctLength, value: 0 });
    let e = plan_fingerprint(8, 9, 3).unwrap_err();
    assert_eq!(e.kind, ErrorKind::InvalidParameter { parameter: Parameter::DctLength, value: 9 });
}

#[test]
fn plan_rejects_channel_count() {
    let e = plan_fingerprint(64, 16, 2).unwrap_err();
    assert_eq!(e.kind, ErrorKind::UnsupportedChannelCount { channels: 2 });
}

#[test]
fn decode_failure_carries_reason() {
    let e = ImageSimilarityError::decode_failure("bad header".to_string());
    assert_eq!(e.kind, ErrorKind::DecodeFailure { reason: "bad header".to_string() });
}

#[test]
fn self_comparison_of_empty_corpus() {
    let corpus: Vec<(String, Fingerprint)> = Vec::new();
    assert!(similarity_directory(&corpus).is_none());
}

#[test]
fn self_comparison_of_single_entry() {
    // what is left of a directory with one undecodable file and one image
    let corpus = vec![("dir/a.png".to_string(), fp("0101"))];
    let r = similarity_directory(&corpus).unwrap();
    assert_eq!(r.len(), 1);
    assert_eq!(r[0].score, Score { matching: 1, total: 1 });
    assert_eq!(value(r[0].score), 1.0);
    assert_eq!(r[0].first, "dir/a.png");
    assert_eq!(r[0].second, "dir/a.png");
}

#[test]
fn self_comparison_of_two_images_differing_in_four_bits() {
    let a: Vec<bool> = (0..256).map(|i| i % 3 == 0).collect();
    let mut b = a.clone();
    for i in [5usize, 77, 128, 255] {
        b[i] = !b[i];
    }
    let corpus = vec![
        ("d/a.png".to_string(), Fingerprint::new(a)),
        ("d/b.png".to_string(), Fingerprint::new(b)),
    ];
    let r = similarity_directory(&corpus).unwrap();
    assert_eq!(r.len(), 1);
    assert_eq!(r[0].score, Score { matching: 252, total: 256 });
    assert_eq!(value(r[0].score), 0.984375);
    assert_eq!(r[0].first, "d/a.png");
    assert_eq!(r[0].second, "d/b.png");
}

#[test]
fn self_comparison_ranks_all_pairs() {
    let corpus = vec![
        ("a".to_string(), fp("0000")),
        ("b".to_string(), fp("0001")),
        ("c".to_string(), fp("0011")),
        ("d".to_string(), fp("1111")),
    ];
    let r = similarity_directory(&corpus).unwrap();
    assert_eq!(r.len(), 4 * 3 / 2);
    for w in r.windows(2) {
        assert!(value(w[0].score) >= value(w[1].score));
    }
    let mut seen: Vec<(String, String)> = r.iter().map(|p| (p.first.clone(), p.second.clone())).collect();
    seen.sort();
    let expected: Vec<(String, String)> = [("a", "b"), ("a", "c"), ("a", "d"), ("b", "c"), ("b", "d"), ("c", "d")]
        .iter()
        .map(|(x, y)| (x.to_string(), y.to_string()))
        .collect();
    assert_eq!(seen, expected);
    assert_eq!(value(r[0].score), 0.75);
    assert_eq!(value(r[5].score), 0.0);
    assert_eq!((r[5].first.as_str(), r[5].second.as_str()), ("a", "d"));
}

#[test]
fn query_against_corpus() {
    let corpus = vec![
        ("far".to_string(), fp("0000")),
        ("near".to_string(), fp("1110")),
        ("same".to_string(), fp("1111")),
        ("other".to_string(), fp("111")),
    ];
    let r = similarity_file_directory(&fp("1111"), &corpus).unwrap();
    let got: Vec<(&str, f64)> = r.iter().map(|m| (m.path.as_str(), value(m.score))).collect();
    assert_eq!(got, vec![("same", 1.0), ("near", 0.75), ("far", 0.0), ("other", 0.0)]);
    let empty: Vec<(String, Fingerprint)> = Vec::new();
    assert!(similarity_file_directory(&fp("1"), &empty).is_none());
}

#[test]
fn rank_order_is_stable() {
    let scores = vec![
        Score { matching: 1, total: 2 },
        Score { matching: 3, total: 3 },
        Score { matching: 2, total: 4 },
        Score { matching: 0, total: 1 },
    ];
    assert_eq!(rank_order(&scores), vec![1, 0, 2, 3]);
}

#[test]
fn extension_list_splits_on_commas() {
    assert_eq!(get_extension("png,jpg"), strings(&["png", "jpg"]));
    assert_eq!(get_extension("gif"), strings(&["gif"]));
    assert_eq!(get_extension(""), strings(&[""]));
    assert_eq!(get_extension("a,,b,"), strings(&["a", "", "b", ""]));
    assert_eq!(default_extensions(), strings(&["png", "jpg", "jpeg"]));
    assert_eq!(split_on("x.tar.gz", '.'), strings(&["x", "tar", "gz"]));
}

#[test]
fn extension_filter_is_exact() {
    let allowed = default_extensions();
    assert!(has_allowed_extension("photos/a.png", &allowed));
    assert!(has_allowed_extension("photos/a.b.jpeg", &allowed));
    assert!(!has_allowed_extension("photos/a.PNG", &allowed));
    assert!(!has_allowed_extension("photos.png/readme", &allowed));
    assert!(!has_allowed_extension("photos/a.gif", &allowed));
    assert!(has_allowed_extension("png", &allowed));
}
