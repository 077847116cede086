use fragrance_vault::catalog::{
    collection_order, dashboard_picks, find_user_id, group_into_rows, highest_rated, lowest_rated,
    most_common_season, ranking_order, sort_choice, Entry, SortKey, User,
};
use fragrance_vault::price::price_cents_of;

fn key(rating: f64) -> u64 {
    rating.to_bits()
}

fn entry(id: i64, brand: &str, name: &str, seasons: &str, category: &str, rating: f64) -> Entry {
    Entry {
        id,
        brand: brand.to_string(),
        name: name.to_string(),
        seasons: seasons.to_string(),
        category: category.to_string(),
        price: String::new(),
        purchase_date: String::new(),
        notes: String::new(),
        rating_key: key(rating),
        user_ratings: Vec::new(),
    }
}

fn bought(mut e: Entry, price: &str, purchase_date: &str, notes: &str) -> Entry {
    e.price = price.to_string();
    e.purchase_date = purchase_date.to_string();
    e.notes = notes.to_string();
    e
}

fn rated_by(mut e: Entry, ratings: &[(&str, f64)]) -> Entry {
    e.user_ratings = ratings.iter().map(|(u, r)| (u.to_string(), key(*r))).collect();
    e
}

fn shelf() -> Vec<Entry> {
    vec![
        rated_by(
            bought(entry(1, "Maison", "One", "", "Perfume", 6.0), "$120.00", "2023-05-01", "Rose, oud"),
            &[("Me", 8.0), ("Partner", 3.0)],
        ),
        rated_by(
            bought(entry(2, "Maison", "Two", "", "Cologne", 7.0), "49.5", "2021-11-20", "bergamot"),
            &[("Partner", 9.0)],
        ),
        rated_by(
            bought(entry(3, "Maison", "Three", "", "Unisex", 8.0), "$1,250.00", "2024-01-15", "Amber"),
            &[("Me", 5.5), ("Partner", 6.0)],
        ),
        rated_by(
            bought(entry(4, "Maison", "Four", "", "cologne", 9.0), "unknown", "2022-07-04", "citrus"),
            &[("Me", 9.5)],
        ),
    ]
}

fn sample() -> Vec<Entry> {
    vec![
        entry(1, "Chanel", "Bleu de Chanel", "Summer,Fall", "Cologne", 8.5),
        entry(2, "Dior", "sauvage", "Spring,Summer", "Cologne", 7.0),
        entry(3, "Creed", "Aventus", "Spring,Summer,Fall", "Unisex", 9.0),
        entry(4, "Tom Ford", "Black Orchid", "Fall,Winter", "Perfume", 7.0),
        entry(5, "Byredo", "Gypsy Water", "Summer", "Perfume", 0.0),
    ]
}

#[test]
fn rating_keys_order_as_ratings() {
    assert!(key(0.0) < key(0.5));
    assert!(key(7.0) < key(8.5));
    assert!(key(9.99) < key(10.0));
}

#[test]
fn group_into_rows_of_three() {
    let rows = group_into_rows(&[1, 2, 3, 4, 5, 6, 7], 3);
    assert_eq!(rows, vec![vec![1, 2, 3], vec![4, 5, 6], vec![7]]);
    let exact = group_into_rows(&["a", "b", "c"], 3);
    assert_eq!(exact, vec![vec!["a", "b", "c"]]);
    let none: Vec<Vec<u8>> = group_into_rows(&[], 3);
    assert!(none.is_empty());
}

#[test]
fn group_into_rows_flattens_back() {
    let items: Vec<u32> = (0..10).collect();
    let rows = group_into_rows(&items, 4);
    assert_eq!(rows.len(), 3);
    let flat: Vec<u32> = rows.concat();
    assert_eq!(flat, items);
}

#[test]
fn find_user_id_takes_first_with_name() {
    let users = vec![
        User { id: 1, name: "Me".to_string() },
        User { id: 2, name: "Partner".to_string() },
        User { id: 3, name: "Partner".to_string() },
    ];
    assert_eq!(find_user_id(&users, "Partner"), Some(2));
    assert_eq!(find_user_id(&users, "Me"), Some(1));
    assert_eq!(find_user_id(&users, "me"), None);
    assert_eq!(find_user_id(&Vec::<User>::new(), "Me"), None);
}

#[test]
fn sort_choice_from_option_text() {
    let cases = [
        ("Rating: High \u{2192} Low", SortKey::Rating, true),
        ("Rating: Low \u{2192} High", SortKey::Rating, false),
        ("Name: A \u{2192} Z", SortKey::Name, false),
        ("Name: Z \u{2192} A", SortKey::Name, true),
        ("Category: A \u{2192} Z", SortKey::Category, false),
        ("Category: Z \u{2192} A", SortKey::Category, true),
        ("Price: Low \u{2192} High", SortKey::Price, false),
        ("Price: High \u{2192} Low", SortKey::Price, true),
        ("Purchase Date: Old \u{2192} New", SortKey::PurchaseDate, false),
        ("Purchase Date: New \u{2192} Old", SortKey::PurchaseDate, true),
        ("Notes: A \u{2192} Z", SortKey::Notes, false),
        ("Notes: Z \u{2192} A", SortKey::Notes, true),
        ("Price", SortKey::Listed, false),
        ("", SortKey::Listed, false),
    ];
    for (option, k, descending) in cases {
        let c = sort_choice(option);
        assert_eq!((c.key, c.descending), (k, descending), "{}", option);
        assert_eq!(c.user, "");
    }
}

#[test]
fn sort_choice_by_a_users_rating() {
    let c = sort_choice("Rating by Partner: High \u{2192} Low");
    assert_eq!((c.key, c.descending, c.user.as_str()), (SortKey::UserRating, true, "Partner"));
    let c = sort_choice("Rating by Me: Low \u{2192} High");
    assert_eq!((c.key, c.descending, c.user.as_str()), (SortKey::UserRating, false, "Me"));
    let c = sort_choice("Rating by : Low \u{2192} High");
    assert_eq!((c.key, c.descending, c.user.as_str()), (SortKey::UserRating, false, ""));
    let c = sort_choice("Rating by Me");
    assert_eq!(c.key, SortKey::Listed);
}

#[test]
fn price_text_read_as_cents() {
    assert_eq!(price_cents_of("$120.00"), 12000);
    assert_eq!(price_cents_of("49.5"), 4950);
    assert_eq!(price_cents_of("$1,250.00"), 125000);
    assert_eq!(price_cents_of("  $80 "), 8000);
    assert_eq!(price_cents_of("12.345"), 1234);
    assert_eq!(price_cents_of("7."), 700);
    assert_eq!(price_cents_of("abc"), -1);
    assert_eq!(price_cents_of(""), -1);
    assert_eq!(price_cents_of("$"), -1);
    assert_eq!(price_cents_of(".5"), -1);
    assert_eq!(price_cents_of("1.2.3"), -1);
    assert_eq!(price_cents_of("-5"), -1);
}

#[test]
fn collection_by_category() {
    let es = vec![
        entry(1, "A", "a", "", "Perfume", 1.0),
        entry(2, "B", "b", "", "Cologne", 1.0),
        entry(3, "C", "c", "", "Unisex", 1.0),
    ];
    assert_eq!(collection_order(&es, "Category: A \u{2192} Z", ""), vec![1, 0, 2]);
    assert_eq!(collection_order(&es, "Category: Z \u{2192} A", ""), vec![2, 0, 1]);
    let mixed = shelf();
    assert_eq!(collection_order(&mixed, "Category: A \u{2192} Z", ""), vec![1, 3, 0, 2]);
    assert_eq!(collection_order(&mixed, "Category: Z \u{2192} A", ""), vec![2, 0, 1, 3]);
}

#[test]
fn collection_by_price() {
    let es = shelf();
    assert_eq!(collection_order(&es, "Price: Low \u{2192} High", ""), vec![3, 1, 0, 2]);
    assert_eq!(collection_order(&es, "Price: High \u{2192} Low", ""), vec![2, 0, 1, 3]);
}

#[test]
fn collection_by_purchase_date() {
    let es = shelf();
    assert_eq!(collection_order(&es, "Purchase Date: Old \u{2192} New", ""), vec![1, 3, 0, 2]);
    assert_eq!(collection_order(&es, "Purchase Date: New \u{2192} Old", ""), vec![2, 0, 3, 1]);
}

#[test]
fn collection_by_notes() {
    let es = shelf();
    assert_eq!(collection_order(&es, "Notes: A \u{2192} Z", ""), vec![2, 1, 3, 0]);
    assert_eq!(collection_order(&es, "Notes: Z \u{2192} A", ""), vec![0, 3, 1, 2]);
}

#[test]
fn collection_by_a_users_rating() {
    let es = shelf();
    assert_eq!(collection_order(&es, "Rating by Me: High \u{2192} Low", ""), vec![3, 0, 2, 1]);
    assert_eq!(collection_order(&es, "Rating by Me: Low \u{2192} High", ""), vec![1, 2, 0, 3]);
    assert_eq!(collection_order(&es, "Rating by Partner: High \u{2192} Low", ""), vec![1, 2, 0, 3]);
    assert_eq!(collection_order(&es, "Rating by Nobody: High \u{2192} Low", ""), vec![0, 1, 2, 3]);
}

#[test]
fn collection_sort_ties_keep_listing_order() {
    let es = vec![
        bought(entry(1, "A", "a", "", "Perfume", 1.0), "$10", "2020-01-01", "x"),
        bought(entry(2, "B", "b", "", "perfume", 1.0), "10.00", "2020-01-01", "X"),
        bought(entry(3, "C", "c", "", "Perfume", 1.0), "$10.0", "2020-01-01", "x"),
    ];
    for option in [
        "Category: A \u{2192} Z",
        "Category: Z \u{2192} A",
        "Price: Low \u{2192} High",
        "Price: High \u{2192} Low",
        "Purchase Date: Old \u{2192} New",
        "Purchase Date: New \u{2192} Old",
        "Notes: A \u{2192} Z",
        "Notes: Z \u{2192} A",
    ] {
        assert_eq!(collection_order(&es, option, ""), vec![0, 1, 2], "{}", option);
    }
}

#[test]
fn collection_by_rating_high_to_low_keeps_ties_in_order() {
    let es = sample();
    assert_eq!(collection_order(&es, "Rating: High \u{2192} Low", ""), vec![2, 0, 1, 3, 4]);
    assert_eq!(collection_order(&es, "Rating: Low \u{2192} High", ""), vec![4, 1, 3, 0, 2]);
}

#[test]
fn collection_by_name_ignores_case() {
    let es = sample();
    assert_eq!(collection_order(&es, "Name: A \u{2192} Z", ""), vec![2, 3, 0, 4, 1]);
    assert_eq!(collection_order(&es, "Name: Z \u{2192} A", ""), vec![1, 4, 0, 3, 2]);
}

#[test]
fn collection_unknown_sort_keeps_listing_order() {
    let es = sample();
    assert_eq!(collection_order(&es, "Shuffle", ""), vec![0, 1, 2, 3, 4]);
    assert_eq!(collection_order(&es, "", ""), vec![0, 1, 2, 3, 4]);
}

#[test]
fn collection_search_is_trimmed_and_case_insensitive() {
    let es = sample();
    assert_eq!(collection_order(&es, "Name: A \u{2192} Z", "  BLEU "), vec![0]);
    assert_eq!(collection_order(&es, "Rating: High \u{2192} Low", "dior"), vec![1]);
    assert_eq!(collection_order(&es, "Rating: High \u{2192} Low", "r"), vec![2, 1, 3, 4]);
    assert_eq!(collection_order(&es, "Rating: High \u{2192} Low", "zzz"), Vec::<usize>::new());
    assert_eq!(collection_order(&es, "Rating: High \u{2192} Low", "   "), vec![2, 0, 1, 3, 4]);
}

#[test]
fn collection_of_nothing() {
    assert_eq!(collection_order(&vec![], "Rating: High \u{2192} Low", "x"), Vec::<usize>::new());
}

#[test]
fn highest_is_last_of_ties_lowest_is_first() {
    let es = vec![
        entry(1, "A", "a", "", "Perfume", 5.0),
        entry(2, "B", "b", "", "Perfume", 9.0),
        entry(3, "C", "c", "", "Perfume", 5.0),
        entry(4, "D", "d", "", "Perfume", 9.0),
    ];
    assert_eq!(highest_rated(&es), Some(3));
    assert_eq!(lowest_rated(&es), Some(0));
    assert_eq!(highest_rated(&vec![]), None);
    assert_eq!(lowest_rated(&vec![]), None);
}

#[test]
fn highest_rated_not_below_lowest_rated() {
    let es = sample();
    let h = highest_rated(&es).unwrap();
    let l = lowest_rated(&es).unwrap();
    assert!(es[h].rating_key >= es[l].rating_key);
    assert_eq!((h, l), (2, 4));
}

#[test]
fn most_common_season_picks_later_of_ties() {
    // Summer: 4, Fall: 3, Spring: 2, Winter: 1
    assert_eq!(most_common_season(&sample()), "Summer");
    let tie = vec![entry(1, "A", "a", "Spring", "Perfume", 1.0), entry(2, "B", "b", "Fall", "Perfume", 1.0)];
    assert_eq!(most_common_season(&tie), "Fall");
    let none = vec![entry(1, "A", "a", "", "Perfume", 1.0)];
    assert_eq!(most_common_season(&none), "");
    assert_eq!(most_common_season(&vec![]), "");
}

#[test]
fn dashboard_picks_of_sample() {
    let d = dashboard_picks(&sample());
    assert_eq!(d.highest, Some(2));
    assert_eq!(d.lowest, Some(4));
    assert_eq!(d.most_common_season, "Summer");
    assert_eq!(d.season_top, vec![2, 0, 1]);
    assert_eq!(d.recently_added, vec![4, 3, 2]);
    assert_eq!(d.top_cologne, vec![2, 0, 1]);
    assert_eq!(d.top_perfume, vec![2, 3, 4]);
}

#[test]
fn dashboard_picks_of_empty_collection() {
    let d = dashboard_picks(&vec![]);
    assert_eq!(d.highest, None);
    assert_eq!(d.lowest, None);
    assert_eq!(d.most_common_season, "");
    assert!(d.season_top.is_empty() && d.recently_added.is_empty());
    assert!(d.top_cologne.is_empty() && d.top_perfume.is_empty());
}

#[test]
fn dashboard_without_seasons_has_no_season_picks() {
    let es = vec![entry(1, "A", "a", "", "Cologne", 3.0), entry(7, "B", "b", "", "Perfume", 4.0)];
    let d = dashboard_picks(&es);
    assert_eq!(d.most_common_season, "");
    assert!(d.season_top.is_empty());
    assert_eq!(d.recently_added, vec![1, 0]);
    assert_eq!(d.top_cologne, vec![0]);
    assert_eq!(d.top_perfume, vec![1]);
}

#[test]
fn ranking_overall_and_by_user() {
    let es = sample();
    assert_eq!(ranking_order(&es, "Overall", ""), vec![2, 0, 1, 3, 4]);
    assert_eq!(ranking_order(&es, "User", "Me"), vec![2, 0, 1, 3, 4]);
}

#[test]
fn ranking_by_season() {
    let es = sample();
    assert_eq!(ranking_order(&es, "Season", "Fall"), vec![2, 0, 3]);
    assert_eq!(ranking_order(&es, "Season", ""), vec![2, 0, 1, 3, 4]);
    assert_eq!(ranking_order(&es, "Season", "Monsoon"), Vec::<usize>::new());
}

#[test]
fn ranking_by_category_counts_unisex() {
    let es = sample();
    assert_eq!(ranking_order(&es, "Category", "Cologne"), vec![2, 0, 1]);
    assert_eq!(ranking_order(&es, "Category", "Perfume"), vec![2, 3, 4]);
    assert_eq!(ranking_order(&es, "Category", "Unisex"), vec![2]);
}

#[test]
fn ranking_keeps_top_ten() {
    let es: Vec<Entry> = (0..12).map(|i| entry(i, "B", "n", "", "Perfume", (i % 5) as f64)).collect();
    let r = ranking_order(&es, "Overall", "");
    assert_eq!(r, vec![4, 9, 3, 8, 2, 7, 1, 6, 11, 0]);
}

#[test]
fn name_z_to_a_is_a_to_z_backwards() {
    let es = sample();
    let mut up = collection_order(&es, "Name: A \u{2192} Z", "");
    let down = collection_order(&es, "Name: Z \u{2192} A", "");
    up.reverse();
    assert_eq!(up, down);
}

#[test]
fn rating_low_to_high_is_high_to_low_backwards_when_ratings_differ() {
    let es = vec![
        entry(1, "A", "a", "", "Perfume", 3.0),
        entry(2, "B", "b", "", "Perfume", 9.5),
        entry(3, "C", "c", "", "Perfume", 6.25),
    ];
    let mut high = collection_order(&es, "Rating: High \u{2192} Low", "");
    let low = collection_order(&es, "Rating: Low \u{2192} High", "");
    high.reverse();
    assert_eq!(high, low);
    assert_eq!(low, vec![0, 2, 1]);
}

#[test]
fn blank_search_shows_whole_collection() {
    let es = sample();
    for blank in ["", " ", "\t\n  "] {
        assert_eq!(collection_order(&es, "Other", blank).len(), es.len());
    }
}

#[test]
fn every_sort_reverses_when_keys_differ() {
    let es = shelf();
    for (up, down) in [
        ("Price: Low \u{2192} High", "Price: High \u{2192} Low"),
        ("Purchase Date: Old \u{2192} New", "Purchase Date: New \u{2192} Old"),
        ("Notes: A \u{2192} Z", "Notes: Z \u{2192} A"),
        ("Rating by Me: Low \u{2192} High", "Rating by Me: High \u{2192} Low"),
    ] {
        let mut a = collection_order(&es, up, "");
        a.reverse();
        assert_eq!(a, collection_order(&es, down, ""), "{}", up);
    }
}
