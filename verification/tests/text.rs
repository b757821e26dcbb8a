use proxynexus_core::border_generator::{bleed_source_pixel, border_padding, marked_red_channel, BorderConfig};
use proxynexus_core::catalog::{catalog_info, normalize_title, underscore_non_alphanumerics};
use proxynexus_core::db_storage::quote_sql_string;
use proxynexus_core::text::{i64_to_decimal, pair_key, parse_u32, replace, u32_to_decimal};

#[test]
fn normalize_title_lowercases_and_underscores_punctuation() {
    assert_eq!(normalize_title("Noise: Hacker Extraordinaire"), "noise__hacker_extraordinaire");
    assert_eq!(normalize_title("Déjà Vu"), "déjà_vu");
    assert_eq!(normalize_title("Sure Gamble"), "sure_gamble");
    assert_eq!(normalize_title(""), "");
}

#[test]
fn parse_u32_reads_what_str_parse_reads() {
    assert_eq!(parse_u32("0"), Some(0));
    assert_eq!(parse_u32("42"), Some(42));
    assert_eq!(parse_u32("+7"), Some(7));
    assert_eq!(parse_u32("007"), Some(7));
    assert_eq!(parse_u32("4294967295"), Some(4294967295));
    assert_eq!(parse_u32("4294967296"), None);
    assert_eq!(parse_u32(""), None);
    assert_eq!(parse_u32("+"), None);
    assert_eq!(parse_u32("-1"), None);
    assert_eq!(parse_u32("1 "), None);
    assert_eq!(parse_u32("12a"), None);
    for s in ["0", "9", "+15", "99999", "4294967295", "", "x", "4294967296"] {
        assert_eq!(parse_u32(s), s.parse::<u32>().ok());
    }
}

#[test]
fn decimals_are_written_as_display_writes_them() {
    assert_eq!(i64_to_decimal(0), "0");
    assert_eq!(i64_to_decimal(-37), "-37");
    assert_eq!(i64_to_decimal(i64::MIN), i64::MIN.to_string());
    assert_eq!(i64_to_decimal(i64::MAX), i64::MAX.to_string());
    assert_eq!(u32_to_decimal(u32::MAX), "4294967295");
    assert_eq!(u32_to_decimal(1039), "1039");
}

#[test]
fn replace_swaps_every_occurrence_left_to_right() {
    assert_eq!(replace("aaa", "aa", "b"), "ba");
    assert_eq!(replace("it's Bob's", "'", "''"), "it''s Bob''s");
    assert_eq!(replace("none here", "x", "y"), "none here");
}

#[test]
fn pair_keys_differ_when_the_pairs_differ() {
    assert_ne!(pair_key("a:b", "c"), pair_key("a", "b:c"));
    assert_eq!(pair_key("card", "pack"), pair_key("card", "pack"));
}

#[test]
fn quote_sql_string_doubles_single_quotes() {
    assert_eq!(quote_sql_string("Bob's"), "'Bob''s'");
    assert_eq!(quote_sql_string(""), "''");
}

#[test]
fn catalog_info_reports_the_count_and_the_version() {
    assert_eq!(
        catalog_info(1234, Some("2024-05-01".to_string())),
        "Card Catalog Info:\n- Cards: 1234\n- Last Updated: 2024-05-01"
    );
    assert_eq!(
        catalog_info(0, None),
        "Card Catalog Info:\n- Cards: 0\n- Last Updated: Unknown (bundled snapshot)"
    );
}

#[test]
fn border_padding_splits_the_difference_evenly() {
    let config = BorderConfig { bleed_width: 816, bleed_height: 1111 };
    assert_eq!(border_padding(&config, 744, 1039), Ok((36, 36)));
    let config = BorderConfig { bleed_width: 817, bleed_height: 1039 };
    assert_eq!(border_padding(&config, 744, 1039), Ok((36, 0)));
}

#[test]
fn border_padding_refuses_an_image_larger_than_its_bleed() {
    let config = BorderConfig { bleed_width: 700, bleed_height: 1111 };
    assert_eq!(
        border_padding(&config, 744, 1039),
        Err("Image 744×1039 is already larger than bleed size 700×1111".to_string())
    );
}

#[test]
fn the_uniqueness_mark_raises_red_and_saturates() {
    assert_eq!(marked_red_channel(100, 0), 100);
    assert_eq!(marked_red_channel(100, 3), 130);
    assert_eq!(marked_red_channel(250, 3), 255);
    assert_eq!(marked_red_channel(0, 26), 4);
}

#[test]
fn non_alphanumerics_become_underscores() {
    assert_eq!(underscore_non_alphanumerics("Déjà Vu: 2!"), "Déjà_Vu__2_");
    assert_eq!(underscore_non_alphanumerics("ABC"), "ABC");
}

#[test]
fn bordered_pixels_copy_the_nearest_source_pixel() {
    assert_eq!(bleed_source_pixel(0, 0, 36, 36, 744, 1039), (0, 0));
    assert_eq!(bleed_source_pixel(40, 50, 36, 36, 744, 1039), (4, 14));
    assert_eq!(bleed_source_pixel(815, 1110, 36, 36, 744, 1039), (743, 1038));
    assert_eq!(bleed_source_pixel(5, 5, 0, 0, 3, 3), (2, 2));
}

#[test]
fn normalizing_a_normalized_title_changes_nothing() {
    for title in ["Noise: Hacker Extraordinaire", "Sure Gamble", "Deduction (2)", "", "__"] {
        let once = normalize_title(title);
        assert_eq!(normalize_title(&once), once);
    }
}
