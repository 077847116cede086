use fragrance_vault::json::{extract_json_field, JsonField, JsonValue};
use fragrance_vault::web_import::{
    assemble_fragrance, image_extension, json_ld_field, ld_json_scripts, meta_content, meta_tags,
    page_info, price_with_dollar, read_page, split_brand_name, truncate, MetaTags, PageInfo,
};

fn s(x: &str) -> JsonValue {
    JsonValue::Str(x.to_string())
}

fn obj(members: Vec<(&str, JsonValue)>) -> JsonValue {
    JsonValue::Object(members.into_iter().map(|(k, v)| (k.to_string(), v)).collect())
}

fn no_meta() -> MetaTags {
    MetaTags {
        og_title: None,
        og_site_name: None,
        og_description: None,
        description: None,
        price_amount: None,
        og_image: None,
    }
}

#[test]
fn split_brand_name_on_dash() {
    assert_eq!(
        split_brand_name("Chanel - Bleu de Chanel"),
        ("Chanel".to_string(), "Bleu de Chanel".to_string())
    );
}

#[test]
fn split_brand_name_on_en_dash_bar_and_colon() {
    assert_eq!(split_brand_name("Dior \u{2013} Sauvage"), ("Dior".to_string(), "Sauvage".to_string()));
    assert_eq!(split_brand_name("Creed | Aventus "), ("Creed".to_string(), "Aventus".to_string()));
    assert_eq!(split_brand_name("Tom Ford: Oud Wood"), ("Tom Ford".to_string(), "Oud Wood".to_string()));
}

#[test]
fn split_brand_name_prefers_earlier_separator_and_leftmost_place() {
    assert_eq!(split_brand_name("A: B - C"), ("A: B".to_string(), "C".to_string()));
    assert_eq!(split_brand_name("A - B - C"), ("A".to_string(), "B - C".to_string()));
}

#[test]
fn split_brand_name_without_separator() {
    assert_eq!(split_brand_name("  Bleu de Chanel  "), (String::new(), "Bleu de Chanel".to_string()));
    assert_eq!(split_brand_name("A-B"), (String::new(), "A-B".to_string()));
}

#[test]
fn truncate_short_text_is_trimmed() {
    assert_eq!(truncate("  Fresh and classy.  ", 400), "Fresh and classy.");
    assert_eq!(truncate("abc", 3), "abc");
}

#[test]
fn truncate_long_text_gets_ellipsis() {
    assert_eq!(truncate("abcdef", 3), "abc\u{2026}");
    assert_eq!(truncate("ab  cdef", 4), "ab\u{2026}");
    assert_eq!(truncate("\u{e9}\u{e9}\u{e9}\u{e9}", 2), "\u{e9}\u{e9}\u{2026}");
}

#[test]
fn truncate_never_exceeds_limit_plus_ellipsis() {
    let text = "x".repeat(1000);
    let out = truncate(&text, 400);
    assert_eq!(out.chars().count(), 401);
    assert!(truncate(&"y ".repeat(300), 400).chars().count() <= 400);
}

#[test]
fn extract_name_description_and_brand() {
    let v = obj(vec![
        ("name", s("Bleu de Chanel")),
        ("description", s("Woody")),
        ("brand", obj(vec![("@type", s("Brand")), ("name", s("Chanel"))])),
    ]);
    assert_eq!(extract_json_field(&v, JsonField::Name), Some("Bleu de Chanel".to_string()));
    assert_eq!(extract_json_field(&v, JsonField::Description), Some("Woody".to_string()));
    assert_eq!(extract_json_field(&v, JsonField::Brand), Some("Chanel".to_string()));
    assert_eq!(extract_json_field(&v, JsonField::Image), None);
}

#[test]
fn extract_brand_as_text_and_image_from_array() {
    let v = obj(vec![
        ("brand", s("Dior")),
        ("image", JsonValue::Array(vec![s("https://x/a.png"), s("https://x/b.png")])),
    ]);
    assert_eq!(extract_json_field(&v, JsonField::Brand), Some("Dior".to_string()));
    assert_eq!(extract_json_field(&v, JsonField::Image), Some("https://x/a.png".to_string()));
}

#[test]
fn extract_price_from_offers() {
    let one = obj(vec![("offers", obj(vec![("price", s("99.00"))]))]);
    assert_eq!(extract_json_field(&one, JsonField::Price), Some("99.00".to_string()));
    let many = obj(vec![(
        "offers",
        JsonValue::Array(vec![obj(vec![("price", JsonValue::Number("120.00".to_string()))]), obj(vec![("price", s("5"))])]),
    )]);
    assert_eq!(extract_json_field(&many, JsonField::Price), Some("120.00".to_string()));
    let half = obj(vec![("offers", obj(vec![("price", JsonValue::Number("49.5".to_string()))]))]);
    assert_eq!(extract_json_field(&half, JsonField::Price), Some("49.50".to_string()));
    let whole = obj(vec![("offers", obj(vec![("price", JsonValue::Number("80".to_string()))]))]);
    assert_eq!(extract_json_field(&whole, JsonField::Price), Some("80.00".to_string()));
    let empty = obj(vec![("offers", JsonValue::Array(vec![]))]);
    assert_eq!(extract_json_field(&empty, JsonField::Price), None);
    let wrong = obj(vec![("offers", obj(vec![("price", JsonValue::Bool(true))]))]);
    assert_eq!(extract_json_field(&wrong, JsonField::Price), None);
}

#[test]
fn extract_searches_arrays_and_graph() {
    let v = JsonValue::Array(vec![
        obj(vec![("@type", s("WebSite"))]),
        obj(vec![("@graph", JsonValue::Array(vec![obj(vec![("name", s("Aventus"))])])), ("name", s("Outer"))]),
    ]);
    assert_eq!(extract_json_field(&v, JsonField::Name), Some("Aventus".to_string()));
    let g = obj(vec![("@graph", JsonValue::Array(vec![])), ("name", s("Outer"))]);
    assert_eq!(extract_json_field(&g, JsonField::Name), Some("Outer".to_string()));
    assert_eq!(extract_json_field(&JsonValue::Null, JsonField::Name), None);
    assert_eq!(extract_json_field(&s("Name"), JsonField::Name), None);
}

#[test]
fn json_ld_field_takes_first_script_that_has_it() {
    let scripts = vec![
        None,
        Some(obj(vec![("description", s("first"))])),
        Some(obj(vec![("name", s("Second")), ("description", s("second"))])),
    ];
    assert_eq!(json_ld_field(&scripts, JsonField::Name), Some("Second".to_string()));
    assert_eq!(json_ld_field(&scripts, JsonField::Description), Some("first".to_string()));
    assert_eq!(json_ld_field(&scripts, JsonField::Price), None);
    assert_eq!(json_ld_field(&vec![], JsonField::Name), None);
}

#[test]
fn page_info_prefers_json_ld_over_meta_tags() {
    let scripts = vec![Some(obj(vec![("name", s("Aventus")), ("offers", obj(vec![("price", s("$435"))]))]))];
    let meta = MetaTags {
        og_title: Some("Creed Aventus | Shop".to_string()),
        og_site_name: Some("Creed".to_string()),
        og_description: Some("Fruity".to_string()),
        description: Some("Plain".to_string()),
        price_amount: Some("400".to_string()),
        og_image: Some("https://x/i.webp".to_string()),
    };
    let info = page_info(&scripts, &meta);
    assert_eq!(info.title, "Aventus");
    assert_eq!(info.brand, "Creed");
    assert_eq!(info.description, "Fruity");
    assert_eq!(info.price, "$435");
    assert_eq!(info.image_url, Some("https://x/i.webp".to_string()));
}

#[test]
fn page_info_fills_in_from_meta_and_defaults_to_empty() {
    let mut meta = no_meta();
    meta.description = Some("Plain".to_string());
    meta.price_amount = Some("49.5".to_string());
    let info = page_info(&vec![], &meta);
    assert_eq!(info.title, "");
    assert_eq!(info.brand, "");
    assert_eq!(info.description, "Plain");
    assert_eq!(info.price, "$49.5");
    assert_eq!(info.image_url, None);
    let none = page_info(&vec![None], &no_meta());
    assert_eq!(none.price, "");
}

#[test]
fn price_with_dollar_adds_sign_once() {
    assert_eq!(price_with_dollar("12".to_string()), "$12");
    assert_eq!(price_with_dollar("$12".to_string()), "$12");
    assert_eq!(price_with_dollar(String::new()), "$");
}

const PAGE: &str = r#"<html><head>
<meta property="og:title" content="Creed Aventus - Shop">
<meta property="og:site_name" content="Shop">
<meta name="description" content="A fruity chypre.">
<meta property="og:image" content="https://shop.example/aventus.jpg">
<script type="application/ld+json">{"@context":"https://schema.org","@type":"Product","name":"Aventus","brand":{"@type":"Brand","name":"Creed"},"offers":{"price":435}}</script>
<script type="application/ld+json">not json</script>
</head><body></body></html>"#;

#[test]
fn read_page_reads_json_ld_and_meta_tags() {
    let info = read_page(PAGE);
    assert_eq!(info.title, "Aventus");
    assert_eq!(info.brand, "Creed");
    assert_eq!(info.description, "A fruity chypre.");
    assert_eq!(info.price, "$435.00");
    assert_eq!(info.image_url, Some("https://shop.example/aventus.jpg".to_string()));
}

#[test]
fn meta_content_and_scripts_of_a_page() {
    assert_eq!(meta_content(PAGE, r#"meta[property="og:title"]"#), Some("Creed Aventus - Shop".to_string()));
    assert_eq!(meta_content(PAGE, r#"meta[property="og:description"]"#), None);
    assert_eq!(meta_content(PAGE, "[[[not a selector"), None);
    let scripts = ld_json_scripts(PAGE);
    assert_eq!(scripts.len(), 2);
    assert!(scripts[0].is_some());
    assert!(scripts[1].is_none());
    let meta = meta_tags(PAGE);
    assert_eq!(meta.og_site_name, Some("Shop".to_string()));
    assert_eq!(meta.price_amount, None);
}

#[test]
fn read_page_falls_back_to_meta_tags() {
    let page = r#"<html><head><meta property="og:title" content="Dior - Sauvage"><meta property="og:site_name" content="Dior - Sauvage"><meta property="product:price:amount" content="110"></head></html>"#;
    let info = read_page(page);
    assert_eq!(info.title, "Dior - Sauvage");
    assert_eq!(info.price, "$110");
    let f = assemble_fragrance(info, String::new()).ok().unwrap();
    assert_eq!(f.brand, "Dior");
    assert_eq!(f.name, "Sauvage");
}

fn info(title: &str, brand: &str, description: &str) -> PageInfo {
    PageInfo {
        title: title.to_string(),
        brand: brand.to_string(),
        description: description.to_string(),
        price: "$10".to_string(),
        image_url: None,
    }
}

#[test]
fn assemble_keeps_distinct_brand_and_title() {
    let f = assemble_fragrance(info("Aventus", "Creed", "  Fruity  "), "/tmp/a.jpg".to_string()).ok().unwrap();
    assert_eq!(f.brand, "Creed");
    assert_eq!(f.name, "Aventus");
    assert_eq!(f.notes, "Fruity");
    assert_eq!(f.price, "$10");
    assert_eq!(f.image_path, "/tmp/a.jpg");
}

#[test]
fn assemble_splits_title_when_brand_missing_or_repeated() {
    let f = assemble_fragrance(info("Chanel - Bleu", "", ""), String::new()).ok().unwrap();
    assert_eq!((f.brand.as_str(), f.name.as_str()), ("Chanel", "Bleu"));
    let g = assemble_fragrance(info("Chanel - Bleu", "Chanel - Bleu", ""), String::new()).ok().unwrap();
    assert_eq!((g.brand.as_str(), g.name.as_str()), ("Chanel", "Bleu"));
    let h = assemble_fragrance(info("Bleu", "", ""), String::new()).ok().unwrap();
    assert_eq!((h.brand.as_str(), h.name.as_str()), ("", "Bleu"));
}

#[test]
fn assemble_refuses_page_without_product() {
    let r = assemble_fragrance(info("", "", "text"), String::new());
    assert_eq!(r.err(), Some("Couldn't find product information on that page.".to_string()));
    let blank = assemble_fragrance(info("   ", "", ""), String::new());
    assert!(blank.is_err());
}

#[test]
fn assemble_truncates_notes_to_400_characters() {
    let long = "n".repeat(450);
    let f = assemble_fragrance(info("X", "Y", &long), String::new()).ok().unwrap();
    assert_eq!(f.notes, format!("{}\u{2026}", "n".repeat(400)));
}

#[test]
fn image_extension_by_address() {
    assert_eq!(image_extension("https://x/p.png?w=2"), "png");
    assert_eq!(image_extension("https://x/p.webp"), "webp");
    assert_eq!(image_extension("https://x/p.jpeg"), "jpg");
    assert_eq!(image_extension("https://x/p.webp.png"), "png");
}
