use floor_structure::assets::{cdn_object_url, floorplan_key, latest_object, rendering_image_url, StoredObject};
use floor_structure::config::{AppConfig, AreaRangeQuery};
use floor_structure::currency::CurrencyCode;
use floor_structure::enums::{ColumnType, FromMap, ShowFloorplan};
use floor_structure::error::ApiError;
use floor_structure::image::{
    convert_image_url, order_with_images_first, recover_image_url, renderings_in_order, Image, ProjectRenderingImageResponse, Resolution,
};
use floor_structure::room_items::{locate_room, select_room_items, split_room_key, RoomItemSource};
use floor_structure::text::{prefix_before, push_decimal, replace_str, str_contains, trim_text};

#[test]
fn currency_parse_ignores_case_and_whitespace() {
    assert_eq!(CurrencyCode::parse("  usd \n"), Some(CurrencyCode::USD));
    assert_eq!(CurrencyCode::parse("krw"), Some(CurrencyCode::KRW));
    assert_eq!(CurrencyCode::parse("dollar"), None);
}

#[test]
fn currency_from_code_is_exact() {
    assert_eq!(CurrencyCode::from_code("TWD"), Some(CurrencyCode::TWD));
    assert_eq!(CurrencyCode::from_code("twd"), None);
}

#[test]
fn currency_mentions_are_found_in_any_case() {
    assert!(CurrencyCode::contains("price 100 eur"));
    assert!(!CurrencyCode::contains("price 100"));
    assert_eq!(CurrencyCode::extract_currency("10 jpy or 3 usd"), Some("USD"));
    assert_eq!(CurrencyCode::extract_currency("nothing"), None);
    assert_eq!(CurrencyCode::first_code_in("10 jpy"), None);
}

#[test]
fn currency_codes_are_removed_as_written() {
    assert_eq!(CurrencyCode::exclude_currency("100USD"), "100");
    assert_eq!(CurrencyCode::exclude_currency("5 KRWKRW and usd"), "5  and usd");
}

#[test]
fn currency_labels() {
    assert_eq!(CurrencyCode::KRW.desc(), "대한민국 원");
    assert_eq!(CurrencyCode::TWD.sign(), "NT$");
    assert_eq!(CurrencyCode::GBP.as_str(), "GBP");
    assert_eq!(CurrencyCode::default_currency(), CurrencyCode::KRW);
    assert_eq!(CurrencyCode::default(), CurrencyCode::KRW);
}

#[test]
fn image_url_conversion_round_trip() {
    let converted = convert_image_url("https://resources.archisketch.com/p/a.png", 512);
    assert_eq!(converted, "https://i.archisketch.com/p/a.png?f=webp&w=512");
    assert_eq!(recover_image_url(&converted), "https://resources.archisketch.com/p/a.png");
    let dev = convert_image_url("https://dev-resources.archisketch.com/x.jpg", 0);
    assert_eq!(dev, "https://dev-i.archisketch.com/x.jpg?f=webp&w=0");
    assert_eq!(recover_image_url("https://elsewhere/x"), "https://elsewhere/x");
}

#[test]
fn text_helpers() {
    assert_eq!(replace_str("aaa", "aa", "b"), "ba");
    assert_eq!(replace_str("abc", "", "x"), "abc");
    assert!(str_contains("hello", "ll"));
    assert!(str_contains("hello", ""));
    assert!(!str_contains("he", "hello"));
    assert_eq!(prefix_before("a?b?c", '?'), "a");
    let mut s = String::from("w=");
    push_decimal(&mut s, 4_294_967_295);
    assert_eq!(s, "w=4294967295");
}

#[test]
fn renderings_follow_id_order_and_skip_missing() {
    let img = |id: &str, t: i32| Image { id: id.to_string(), image_type: t, status: 1, resolution: Resolution { x: 10, y: 20 } };
    let images = vec![img("b", 2), img("a", 1)];
    let ids = vec!["a".to_string(), "zz".to_string(), "b".to_string()];
    let r = renderings_in_order(&ids, &images);
    let got: Vec<(&str, i32)> = r.images.iter().map(|i| (i.id.as_str(), i.image_type)).collect();
    assert_eq!(got, vec![("a", 1), ("b", 2)]);
    let one = ProjectRenderingImageResponse::from_image(&images[0]);
    assert_eq!((one.resolution.x, one.resolution.y), (10, 20));
}

#[test]
fn latest_object_is_first_newest_complete() {
    let o = |k: Option<&str>, t: Option<i64>| StoredObject { key: k.map(|s| s.to_string()), last_modified: t };
    let objs = vec![o(Some("a"), Some(5)), o(None, Some(99)), o(Some("b"), Some(7)), o(Some("c"), Some(7)), o(Some("d"), None)];
    assert_eq!(latest_object(&objs), Some(2));
    assert_eq!(latest_object(&vec![o(None, Some(1))]), None);
    assert_eq!(latest_object(&vec![]), None);
}

#[test]
fn object_urls_join_with_one_slash() {
    assert_eq!(cdn_object_url("https://cdn.example//", "//projects/p/1.png"), "https://cdn.example/projects/p/1.png");
    assert_eq!(cdn_object_url("https://cdn.example", "k"), "https://cdn.example/k");
    assert_eq!(floorplan_key("prj1"), "projects/prj1/floorplans.json");
}

#[test]
fn config_defaults() {
    let c = AppConfig::from_values(None, None, None, None, None, None);
    assert_eq!(c.port, 8080);
    assert_eq!(c.mongodb_db, "ArchisketchDB");
    assert_eq!(c.cdn_url, "https://dev-resources.archisketch.com");
    let d = AppConfig::from_values(Some(1), None, Some("db".to_string()), None, None, Some("u".to_string()));
    assert_eq!((d.port, d.mongodb_db.as_str(), d.cdn_url.as_str()), (1, "db", "u"));
}

#[test]
fn area_query_windows_scale_per_kind() {
    let q = AreaRangeQuery { area_from: Some(40), area_to: Some(-1) };
    assert_eq!(q.floor_window(), (Some(40_000_000), Some(-1_000_000)));
    assert_eq!(q.room_window(), (Some(40_000_000_000_000), Some(-1_000_000_000_000)));
    assert_eq!(AreaRangeQuery::default().floor_window(), (None, None));
}

#[test]
fn small_enums_and_constructors() {
    assert_eq!(ColumnType::Cylinder.value(), "cylinder");
    assert_eq!(ColumnType::Rectangular.value(), "rectangular");
    assert_eq!(ShowFloorplan::default(), ShowFloorplan::Hidden);
    let f = FromMap::new(Some("m".to_string()), None, Some("f".to_string()), None);
    assert_eq!(f.map_fp_data_id.as_deref(), Some("m"));
    assert_eq!(f.fp_data_id.as_deref(), Some("f"));
    match ApiError::not_found("gone".to_string()) {
        ApiError::NotFound { message } => assert_eq!(message, "gone"),
        _ => panic!("wrong variant"),
    }
    assert!(matches!(ApiError::internal("x".to_string()), ApiError::Internal { .. }));
}

#[test]
fn rendering_urls_carry_size() {
    assert_eq!(rendering_image_url("https://cdn/", "i1", 640, 480), "https://cdn/images/i1/640x480/i1.png");
    assert_eq!(rendering_image_url("h", "i", -1, 0), "h/images/i/-1x0/i.png");
}

#[test]
fn results_with_images_come_first() {
    let order = order_with_images_first(&vec![false, true, false, true]);
    assert_eq!(order, vec![1, 3, 0, 2]);
    assert!(order_with_images_first(&vec![]).is_empty());
}

#[test]
fn room_keys_split_at_first_underscore() {
    assert_eq!(split_room_key("prj1_r_2"), Some(("prj1".to_string(), "r_2".to_string())));
    assert_eq!(split_room_key("_r"), None);
    assert_eq!(split_room_key("p_"), None);
    assert_eq!(split_room_key("pr"), None);
}

#[test]
fn rooms_are_located_plan_by_plan() {
    let floors = vec![None, Some(vec!["a".to_string(), "b".to_string()]), Some(vec!["b".to_string()])];
    assert_eq!(locate_room(&floors, "b"), Some((1, 1)));
    assert_eq!(locate_room(&floors, "c"), None);
}

#[test]
fn room_items_prefer_shared_floorplan_items() {
    let s = |v: &str| Some(v.to_string());
    let floor = vec![s("i1"), None, s("i2"), s("i3")];
    match select_room_items(&floor, &vec![s("i3"), None, s("i1")]) {
        RoomItemSource::FromFloorplan(v) => assert_eq!(v, vec![0, 3]),
        RoomItemSource::FromRoom => panic!("expected floor-plan items"),
    }
    assert!(matches!(select_room_items(&floor, &vec![s("zz")]), RoomItemSource::FromRoom));
    match select_room_items(&floor, &vec![]) {
        RoomItemSource::FromFloorplan(v) => assert!(v.is_empty()),
        RoomItemSource::FromRoom => panic!("room lists no items"),
    }
}

#[test]
fn trimming_removes_unicode_white_space() {
    assert_eq!(trim_text("\u{3000}\t usd \u{85}\u{2029}"), "usd");
    assert_eq!(trim_text("  "), "");
    assert_eq!(trim_text("a b"), "a b");
    assert_eq!(CurrencyCode::parse("\u{a0}eur\u{2003}"), Some(CurrencyCode::EUR));
}
