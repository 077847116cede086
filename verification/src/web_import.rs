//! Reading a fragrance's details off a product page: the schema.org (JSON-LD)
//! metadata first, the Open Graph meta tags second.

use vstd::prelude::*;

use crate::json::{JsonField, JsonValue, extract_json_field, opt_view, parse_json, spec_extract, spec_parse_json};
use crate::text::{
    chars_of, contains_seq, find_chars, first_index, lemma_first_index, lemma_contains_written_out, is_first_occurrence,
    str_contains, str_equal, string_of, sub_chars, trim_chars, trimmed, trim_start,
    lemma_trim_start_shorter, lemma_trim_end_shorter,
};

verus! {

/// The details read off a product page, ready to fill the add-fragrance form.
pub struct ScrapedFragrance {
    pub brand: String,
    pub name: String,
    pub notes: String,
    pub price: String,
    pub image_path: String,
}

/// The separators that split a page title into brand and name, tried in this order.
pub open spec fn brand_separators() -> Seq<Seq<char>> {
    seq![seq![' ', '-', ' '], seq![' ', '\u{2013}', ' '], seq![' ', '|', ' '], seq![':', ' ']]
}

/// `title` split at the first of `seps` that it holds (at that separator's
/// leftmost occurrence), both parts trimmed; with none, no brand and the
/// trimmed title as the name.
pub open spec fn split_with(title: Seq<char>, seps: Seq<Seq<char>>) -> (Seq<char>, Seq<char>)
    decreases seps.len(),
{
    if seps.len() == 0 {
        (Seq::empty(), trimmed(title))
    } else if contains_seq(title, seps[0]) {
        let i = first_index(title, seps[0]);
        (trimmed(title.take(i)), trimmed(title.skip(i + seps[0].len())))
    } else {
        split_with(title, seps.drop_first())
    }
}

pub open spec fn spec_split_brand_name(title: Seq<char>) -> (Seq<char>, Seq<char>) {
    split_with(title, brand_separators())
}

proof fn lemma_split_with_skips(title: Seq<char>, seps: Seq<Seq<char>>, k: int)
    requires
        0 <= k <= seps.len(),
        forall|m: int| 0 <= m < k ==> !contains_seq(title, #[trigger] seps[m]),
    ensures
        split_with(title, seps) == split_with(title, seps.skip(k)),
    decreases k,
{
    if k > 0 {
        assert(!contains_seq(title, seps[0]));
        let rest = seps.drop_first();
        assert forall|m: int| 0 <= m < k - 1 implies !contains_seq(title, #[trigger] rest[m]) by {
            assert(rest[m] == seps[m + 1]);
        }
        lemma_split_with_skips(title, rest, k - 1);
        assert(rest.skip(k - 1) =~= seps.skip(k));
    } else {
        assert(seps.skip(0) =~= seps);
    }
}

/// A title is split at the first of the separators " - ", " \u{2013} ", " | " and
/// ": " that it holds, at that separator's leftmost place: the brand is what
/// comes before it and the name what comes after, both trimmed.
pub proof fn lemma_title_split_at_first_separator(title: Seq<char>, k: int, i: int)
    requires
        0 <= k < 4,
        ({
            let seps = seq![seq![' ', '-', ' '], seq![' ', '\u{2013}', ' '], seq![' ', '|', ' '], seq![':', ' ']];
            let sep = seps[k];
            &&& 0 <= i && i + sep.len() <= title.len() && title.subrange(i, i + sep.len()) == sep
            &&& forall|p: int| 0 <= p < i ==> #[trigger] title.subrange(p, p + sep.len()) != sep
            &&& forall|m: int, p: int|
                0 <= m < k && 0 <= p && p + seps[m].len() <= title.len() ==> #[trigger] title.subrange(
                    p,
                    p + seps[m].len(),
                ) != seps[m]
        }),
    ensures
        ({
            let sep = seq![seq![' ', '-', ' '], seq![' ', '\u{2013}', ' '], seq![' ', '|', ' '], seq![':', ' ']][k];
            spec_split_brand_name(title) == (trimmed(title.take(i)), trimmed(title.skip(i + sep.len())))
        }),
{
    let seps = brand_separators();
    let sep = seps[k];
    assert forall|m: int| 0 <= m < k implies !contains_seq(title, #[trigger] seps[m]) by {
        lemma_contains_written_out(title, seps[m]);
    }
    lemma_split_with_skips(title, seps, k);
    assert(seps.skip(k)[0] == sep);
    assert(is_first_occurrence(title, sep, i));
    lemma_first_index(title, sep, i);
}

/// A title with none of those separators gives no brand, and the whole title,
/// trimmed, as the name.
pub proof fn lemma_title_without_separator(title: Seq<char>)
    requires
        ({
            let seps = seq![seq![' ', '-', ' '], seq![' ', '\u{2013}', ' '], seq![' ', '|', ' '], seq![':', ' ']];
            forall|m: int, p: int|
                0 <= m < 4 && 0 <= p && p + seps[m].len() <= title.len() ==> #[trigger] title.subrange(
                    p,
                    p + seps[m].len(),
                ) != seps[m]
        }),
    ensures
        spec_split_brand_name(title) == (Seq::<char>::empty(), trimmed(title)),
{
    let seps = brand_separators();
    assert forall|m: int| 0 <= m < 4 implies !contains_seq(title, #[trigger] seps[m]) by {
        lemma_contains_written_out(title, seps[m]);
    }
    lemma_split_with_skips(title, seps, 4);
    assert(seps.skip(4).len() == 0);
}

fn separator_list() -> (r: Vec<Vec<char>>)
    ensures
        r@.len() == brand_separators().len(),
        forall|k: int| 0 <= k < r@.len() ==> #[trigger] r@[k]@ == brand_separators()[k],
{
    let mut r: Vec<Vec<char>> = Vec::new();
    r.push(vec![' ', '-', ' ']);
    r.push(vec![' ', '\u{2013}', ' ']);
    r.push(vec![' ', '|', ' ']);
    r.push(vec![':', ' ']);
    r
}

/// Splits a page title such as "Chanel - Bleu de Chanel" into brand and name.
pub fn split_brand_name(title: &str) -> (r: (String, String))
    ensures
        (r.0@, r.1@) == spec_split_brand_name(title@),
{
    let t = chars_of(title);
    let seps = separator_list();
    let mut k: usize = 0;
    assert(brand_separators().skip(0) == brand_separators());
    while k < seps.len()
        invariant
            k <= seps@.len(),
            t@ == title@,
            seps@.len() == brand_separators().len(),
            forall|j: int| 0 <= j < seps@.len() ==> #[trigger] seps@[j]@ == brand_separators()[j],
            spec_split_brand_name(title@) == split_with(title@, brand_separators().skip(k as int)),
        decreases seps.len() - k,
    {
        let ghost rest = brand_separators().skip(k as int);
        assert(rest[0] == seps@[k as int]@);
        assert(rest.drop_first() == brand_separators().skip(k + 1));
        match find_chars(&t, &seps[k]) {
            Some(i) => {
                proof {
                    lemma_first_index(t@, seps@[k as int]@, i as int);
                }
                let first = trim_chars(&sub_chars(&t, 0, i));
                let second = trim_chars(&sub_chars(&t, i + seps[k].len(), t.len()));
                assert(t@.subrange(0, i as int) == t@.take(i as int));
                assert(t@.subrange(i + seps@[k as int]@.len(), t@.len() as int) == t@.skip(
                    i + seps@[k as int]@.len(),
                ));
                return (string_of(&first), string_of(&second));
            },
            None => {},
        }
        k = k + 1;
    }
    (String::new(), string_of(&trim_chars(&t)))
}

/// `s` trimmed when it has at most `max_chars` characters; otherwise its first
/// `max_chars` characters, trimmed, followed by an ellipsis.
pub open spec fn spec_truncate(s: Seq<char>, max_chars: int) -> Seq<char> {
    if s.len() <= max_chars {
        trimmed(s)
    } else {
        trimmed(s.take(max_chars)) + seq!['\u{2026}']
    }
}

/// A shortened text holds at most `max_chars` characters besides the ellipsis.
pub proof fn lemma_truncate_length(s: Seq<char>, max_chars: int)
    requires
        0 <= max_chars,
    ensures
        spec_truncate(s, max_chars).len() <= max_chars + 1,
        s.len() <= max_chars ==> spec_truncate(s, max_chars).len() <= max_chars,
{
    lemma_trim_start_shorter(s);
    lemma_trim_end_shorter(trim_start(s));
    lemma_trim_start_shorter(s.take(max_chars));
    lemma_trim_end_shorter(trim_start(s.take(max_chars)));
}

/// Shortens a text to at most `max_chars` characters (before the ellipsis).
pub fn truncate(s: &str, max_chars: usize) -> (r: String)
    ensures
        r@ == spec_truncate(s@, max_chars as int),
{
    let v = chars_of(s);
    if v.len() <= max_chars {
        string_of(&trim_chars(&v))
    } else {
        let mut t = trim_chars(&sub_chars(&v, 0, max_chars));
        assert(v@.subrange(0, max_chars as int) == v@.take(max_chars as int));
        t.push('\u{2026}');
        string_of(&t)
    }
}


/// The texts of the elements of an HTML document that a CSS selector picks, in
/// document order, as `scraper` gives them (none when the selector does not
/// parse). A function of the document and the selector alone.
pub uninterp spec fn spec_select_texts(document: Seq<char>, selector: Seq<char>) -> Seq<Seq<char>>;

/// The value of an attribute of the first element that a CSS selector picks in
/// an HTML document, as `scraper` gives it. A function of its arguments alone.
pub uninterp spec fn spec_first_attribute(
    document: Seq<char>,
    selector: Seq<char>,
    attribute: Seq<char>,
) -> Option<Seq<char>>;

/// Parses the document with `scraper::Html::parse_document` and the selector
/// with `scraper::Selector::parse`, and collects the text of each element that
/// it selects; claims that the texts are `spec_select_texts` of the arguments.
#[verifier::external_body]
fn select_texts(document: &str, selector: &str) -> (r: Vec<String>)
    ensures
        r@.map_values(|t: String| t@) == spec_select_texts(document@, selector@),
{
    let doc = scraper::Html::parse_document(document);
    match scraper::Selector::parse(selector) {
        Ok(sel) => doc.select(&sel).map(|el| el.text().collect::<String>()).collect(),
        Err(_) => Vec::new(),
    }
}

/// Parses the document and the selector with `scraper`, and reads the attribute
/// of the first selected element; claims that the result is
/// `spec_first_attribute` of the arguments.
#[verifier::external_body]
fn first_attribute(document: &str, selector: &str, attribute: &str) -> (r: Option<String>)
    ensures
        opt_view(r) == spec_first_attribute(document@, selector@, attribute@),
{
    let doc = scraper::Html::parse_document(document);
    let sel = scraper::Selector::parse(selector).ok()?;
    let el = doc.select(&sel).next()?;
    el.value().attr(attribute).map(|a| a.to_string())
}

/// The `content` of the first meta tag that `selector` picks.
pub open spec fn spec_meta_content(document: Seq<char>, selector: Seq<char>) -> Option<Seq<char>> {
    spec_first_attribute(document, selector, "content"@)
}

/// The `content` attribute of the first element that `selector` picks.
pub fn meta_content(document: &str, selector: &str) -> (r: Option<String>)
    ensures
        opt_view(r) == spec_meta_content(document@, selector@),
{
    first_attribute(document, selector, "content")
}

/// The JSON-LD scripts of a document, each parsed (`None` where it is not JSON).
pub open spec fn spec_ld_json_scripts(document: Seq<char>) -> Seq<Option<JsonValue>> {
    spec_select_texts(document, "script[type=\"application/ld+json\"]"@).map_values(
        |t: Seq<char>| spec_parse_json(t),
    )
}

/// The `application/ld+json` scripts of an HTML document, parsed as JSON.
pub fn ld_json_scripts(document: &str) -> (r: Vec<Option<JsonValue>>)
    ensures
        r@ == spec_ld_json_scripts(document@),
{
    let texts = select_texts(document, "script[type=\"application/ld+json\"]");
    let ghost tv = texts@.map_values(|t: String| t@);
    let mut r: Vec<Option<JsonValue>> = Vec::new();
    let mut i: usize = 0;
    while i < texts.len()
        invariant
            i <= texts@.len(),
            tv == texts@.map_values(|t: String| t@),
            tv == spec_select_texts(document@, "script[type=\"application/ld+json\"]"@),
            r@.len() == i,
            forall|j: int| 0 <= j < i ==> #[trigger] r@[j] == spec_parse_json(tv[j]),
        decreases texts.len() - i,
    {
        let parsed = parse_json(texts[i].as_str());
        r.push(parsed);
        i = i + 1;
    }
    assert(r@ == spec_ld_json_scripts(document@));
    r
}

/// The field as the first script that has it gives it.
pub open spec fn spec_scripts_field(scripts: Seq<Option<JsonValue>>, field: JsonField) -> Option<
    Seq<char>,
>
    decreases scripts.len(),
{
    if scripts.len() == 0 {
        None
    } else {
        let here = match scripts[0] {
            Some(j) => spec_extract(j, field),
            None => None,
        };
        match here {
            Some(s) => Some(s),
            None => spec_scripts_field(scripts.drop_first(), field),
        }
    }
}

/// A product field from the page's JSON-LD scripts: the first script that
/// parses and has it gives it.
pub fn json_ld_field(scripts: &Vec<Option<JsonValue>>, field: JsonField) -> (r: Option<String>)
    ensures
        opt_view(r) == spec_scripts_field(scripts@, field),
{
    let mut i: usize = 0;
    assert(scripts@.skip(0) == scripts@);
    while i < scripts.len()
        invariant
            i <= scripts@.len(),
            spec_scripts_field(scripts@, field) == spec_scripts_field(scripts@.skip(i as int), field),
        decreases scripts.len() - i,
    {
        assert(scripts@.skip(i as int)[0] == scripts@[i as int]);
        assert(scripts@.skip(i as int).drop_first() == scripts@.skip(i + 1));
        match &scripts[i] {
            Some(j) => match extract_json_field(j, field) {
                Some(v) => {
                    return Some(v);
                },
                None => {},
            },
            None => {},
        }
        i = i + 1;
    }
    None
}

/// The Open Graph and description meta tags of a page, by their `content`.
pub struct MetaTags {
    pub og_title: Option<String>,
    pub og_site_name: Option<String>,
    pub og_description: Option<String>,
    pub description: Option<String>,
    pub price_amount: Option<String>,
    pub og_image: Option<String>,
}

pub open spec fn spec_og_title(d: Seq<char>) -> Option<Seq<char>> {
    spec_meta_content(d, "meta[property=\"og:title\"]"@)
}

pub open spec fn spec_og_site_name(d: Seq<char>) -> Option<Seq<char>> {
    spec_meta_content(d, "meta[property=\"og:site_name\"]"@)
}

pub open spec fn spec_og_description(d: Seq<char>) -> Option<Seq<char>> {
    spec_meta_content(d, "meta[property=\"og:description\"]"@)
}

pub open spec fn spec_description(d: Seq<char>) -> Option<Seq<char>> {
    spec_meta_content(d, "meta[name=\"description\"]"@)
}

pub open spec fn spec_price_amount(d: Seq<char>) -> Option<Seq<char>> {
    spec_meta_content(d, "meta[property=\"product:price:amount\"]"@)
}

pub open spec fn spec_og_image(d: Seq<char>) -> Option<Seq<char>> {
    spec_meta_content(d, "meta[property=\"og:image\"]"@)
}

/// The meta tags of an HTML document.
pub fn meta_tags(document: &str) -> (r: MetaTags)
    ensures
        opt_view(r.og_title) == spec_og_title(document@),
        opt_view(r.og_site_name) == spec_og_site_name(document@),
        opt_view(r.og_description) == spec_og_description(document@),
        opt_view(r.description) == spec_description(document@),
        opt_view(r.price_amount) == spec_price_amount(document@),
        opt_view(r.og_image) == spec_og_image(document@),
{
    MetaTags {
        og_title: meta_content(document, "meta[property=\"og:title\"]"),
        og_site_name: meta_content(document, "meta[property=\"og:site_name\"]"),
        og_description: meta_content(document, "meta[property=\"og:description\"]"),
        description: meta_content(document, "meta[name=\"description\"]"),
        price_amount: meta_content(document, "meta[property=\"product:price:amount\"]"),
        og_image: meta_content(document, "meta[property=\"og:image\"]"),
    }
}

pub open spec fn or_else(a: Option<Seq<char>>, b: Option<Seq<char>>) -> Option<Seq<char>> {
    match a {
        Some(s) => Some(s),
        None => b,
    }
}

pub open spec fn or_empty(a: Option<Seq<char>>) -> Seq<char> {
    match a {
        Some(s) => s,
        None => Seq::empty(),
    }
}

/// A price shown with a dollar sign: as it is when it starts with one, else
/// with one put in front.
pub open spec fn with_dollar(p: Seq<char>) -> Seq<char> {
    if p.len() > 0 && p[0] == '$' {
        p
    } else {
        seq!['$'] + p
    }
}

/// What a product page says of a fragrance, before the image is fetched.
pub struct PageInfo {
    pub title: String,
    pub brand: String,
    pub description: String,
    pub price: String,
    pub image_url: Option<String>,
}

pub open spec fn page_title(s: Seq<Option<JsonValue>>, og_title: Option<Seq<char>>) -> Seq<char> {
    or_empty(or_else(spec_scripts_field(s, JsonField::Name), og_title))
}

pub open spec fn page_brand(s: Seq<Option<JsonValue>>, og_site_name: Option<Seq<char>>) -> Seq<char> {
    or_empty(or_else(spec_scripts_field(s, JsonField::Brand), og_site_name))
}

pub open spec fn page_description(
    s: Seq<Option<JsonValue>>,
    og_description: Option<Seq<char>>,
    description: Option<Seq<char>>,
) -> Seq<char> {
    or_empty(or_else(or_else(spec_scripts_field(s, JsonField::Description), og_description), description))
}

pub open spec fn page_price(s: Seq<Option<JsonValue>>, amount: Option<Seq<char>>) -> Seq<char> {
    match or_else(spec_scripts_field(s, JsonField::Price), amount) {
        Some(p) => with_dollar(p),
        None => Seq::empty(),
    }
}

pub open spec fn page_image_url(s: Seq<Option<JsonValue>>, og_image: Option<Seq<char>>) -> Option<Seq<char>> {
    or_else(spec_scripts_field(s, JsonField::Image), og_image)
}

fn or_else_string(a: Option<String>, b: Option<String>) -> (r: Option<String>)
    ensures
        opt_view(r) == or_else(opt_view(a), opt_view(b)),
{
    match a {
        Some(s) => Some(s),
        None => b,
    }
}

fn or_empty_string(a: Option<String>) -> (r: String)
    ensures
        r@ == or_empty(opt_view(a)),
{
    match a {
        Some(s) => s,
        None => String::new(),
    }
}

/// Puts a dollar sign in front of a price that has none.
pub fn price_with_dollar(p: String) -> (r: String)
    ensures
        r@ == with_dollar(p@),
{
    let v = chars_of(p.as_str());
    if v.len() > 0 && v[0] == '$' {
        p
    } else {
        let mut w: Vec<char> = Vec::new();
        w.push('$');
        let mut i: usize = 0;
        while i < v.len()
            invariant
                i <= v@.len(),
                w@ == seq!['$'] + v@.take(i as int),
            decreases v.len() - i,
        {
            w.push(v[i]);
            assert(v@.take(i + 1) == v@.take(i as int).push(v@[i as int]));
            i = i + 1;
        }
        assert(v@.take(v@.len() as int) == v@);
        string_of(&w)
    }
}

/// Combines what the JSON-LD scripts and the meta tags of a page say: the
/// scripts win, the meta tags fill in, and a missing text is empty.
pub fn page_info(scripts: &Vec<Option<JsonValue>>, meta: &MetaTags) -> (r: PageInfo)
    ensures
        r.title@ == page_title(scripts@, opt_view(meta.og_title)),
        r.brand@ == page_brand(scripts@, opt_view(meta.og_site_name)),
        r.description@ == page_description(
            scripts@,
            opt_view(meta.og_description),
            opt_view(meta.description),
        ),
        r.price@ == page_price(scripts@, opt_view(meta.price_amount)),
        opt_view(r.image_url) == page_image_url(scripts@, opt_view(meta.og_image)),
{
    let title = or_empty_string(or_else_string(json_ld_field(scripts, JsonField::Name), meta.og_title.clone()));
    let brand = or_empty_string(or_else_string(json_ld_field(scripts, JsonField::Brand), meta.og_site_name.clone()));
    let description = or_empty_string(
        or_else_string(
            or_else_string(json_ld_field(scripts, JsonField::Description), meta.og_description.clone()),
            meta.description.clone(),
        ),
    );
    let price = match or_else_string(json_ld_field(scripts, JsonField::Price), meta.price_amount.clone()) {
        Some(p) => price_with_dollar(p),
        None => String::new(),
    };
    let image_url = or_else_string(json_ld_field(scripts, JsonField::Image), meta.og_image.clone());
    PageInfo { title, brand, description, price, image_url }
}

/// A detail of the page's JSON-LD is what the first script that parses and has
/// it says, whatever later scripts say.
pub proof fn lemma_first_script_with_field_wins(scripts: Seq<Option<JsonValue>>, field: JsonField, k: int)
    requires
        0 <= k < scripts.len(),
        scripts[k] is Some,
        spec_extract(scripts[k]->Some_0, field) is Some,
        forall|j: int| 0 <= j < k ==> #[trigger] scripts[j] is None || spec_extract(scripts[j]->Some_0, field) is None,
    ensures
        spec_scripts_field(scripts, field) == spec_extract(scripts[k]->Some_0, field),
    decreases k,
{
    if k > 0 {
        let rest = scripts.drop_first();
        assert(scripts[0] is None || spec_extract(scripts[0]->Some_0, field) is None);
        assert forall|j: int| 0 <= j < k - 1 implies #[trigger] rest[j] is None || spec_extract(rest[j]->Some_0, field) is None by {
            assert(rest[j] == scripts[j + 1]);
        }
        assert(rest[k - 1] == scripts[k]);
        lemma_first_script_with_field_wins(rest, field, k - 1);
    }
}

/// When no script parses and has a detail, the JSON-LD does not give it.
pub proof fn lemma_no_script_with_field(scripts: Seq<Option<JsonValue>>, field: JsonField)
    requires
        forall|j: int| 0 <= j < scripts.len() ==> #[trigger] scripts[j] is None || spec_extract(scripts[j]->Some_0, field) is None,
    ensures
        spec_scripts_field(scripts, field) is None,
    decreases scripts.len(),
{
    if scripts.len() > 0 {
        let rest = scripts.drop_first();
        assert(scripts[0] is None || spec_extract(scripts[0]->Some_0, field) is None);
        assert forall|j: int| 0 <= j < rest.len() implies #[trigger] rest[j] is None || spec_extract(rest[j]->Some_0, field) is None by {
            assert(rest[j] == scripts[j + 1]);
        }
        lemma_no_script_with_field(rest, field);
    }
}

/// The page's JSON-LD wins over its meta tags: each detail that the scripts
/// give is taken from them; only when they do not give it do the meta tags
/// (for the description `og:description`, then `description`), and with
/// neither it is empty (the image: none). A price is shown with a dollar sign
/// in front, added when it has none.
pub proof fn lemma_scripts_win_over_meta_tags(scripts: Seq<Option<JsonValue>>, meta: MetaTags, r: PageInfo)
    requires
        r.title@ == page_title(scripts, opt_view(meta.og_title)),
        r.brand@ == page_brand(scripts, opt_view(meta.og_site_name)),
        r.description@ == page_description(scripts, opt_view(meta.og_description), opt_view(meta.description)),
        r.price@ == page_price(scripts, opt_view(meta.price_amount)),
        opt_view(r.image_url) == page_image_url(scripts, opt_view(meta.og_image)),
    ensures
        spec_scripts_field(scripts, JsonField::Name) matches Some(t) ==> r.title@ == t,
        spec_scripts_field(scripts, JsonField::Name) is None ==> r.title@ == match meta.og_title {
            Some(t) => t@,
            None => Seq::empty(),
        },
        spec_scripts_field(scripts, JsonField::Brand) matches Some(t) ==> r.brand@ == t,
        spec_scripts_field(scripts, JsonField::Brand) is None ==> r.brand@ == match meta.og_site_name {
            Some(t) => t@,
            None => Seq::empty(),
        },
        spec_scripts_field(scripts, JsonField::Description) matches Some(t) ==> r.description@ == t,
        spec_scripts_field(scripts, JsonField::Description) is None && meta.og_description is Some ==> r.description@
            == meta.og_description->Some_0@,
        spec_scripts_field(scripts, JsonField::Description) is None && meta.og_description is None ==> r.description@
            == match meta.description {
            Some(t) => t@,
            None => Seq::empty(),
        },
        spec_scripts_field(scripts, JsonField::Image) is Some ==> opt_view(r.image_url) == spec_scripts_field(scripts, JsonField::Image),
        spec_scripts_field(scripts, JsonField::Image) is None ==> opt_view(r.image_url) == opt_view(meta.og_image),
        spec_scripts_field(scripts, JsonField::Price) matches Some(p) ==> r.price@ == if p.len() > 0 && p[0] == '$' {
            p
        } else {
            seq!['$'] + p
        },
        spec_scripts_field(scripts, JsonField::Price) is None && meta.price_amount is Some ==> ({
            let p = meta.price_amount->Some_0@;
            r.price@ == if p.len() > 0 && p[0] == '$' {
                p
            } else {
                seq!['$'] + p
            }
        }),
        spec_scripts_field(scripts, JsonField::Price) is None && meta.price_amount is None ==> r.price@.len() == 0,
{
}

/// Reads a product page's HTML.
pub fn read_page(document: &str) -> (r: PageInfo)
    ensures
        r.title@ == page_title(spec_ld_json_scripts(document@), spec_og_title(document@)),
        r.brand@ == page_brand(spec_ld_json_scripts(document@), spec_og_site_name(document@)),
        r.description@ == page_description(
            spec_ld_json_scripts(document@),
            spec_og_description(document@),
            spec_description(document@),
        ),
        r.price@ == page_price(spec_ld_json_scripts(document@), spec_price_amount(document@)),
        opt_view(r.image_url) == page_image_url(spec_ld_json_scripts(document@), spec_og_image(document@)),
{
    let scripts = ld_json_scripts(document);
    let meta = meta_tags(document);
    page_info(&scripts, &meta)
}


/// Brand and name of the fragrance: the page's brand and title, unless the
/// brand is missing or repeats the title, in which case the title is split.
pub open spec fn spec_brand_and_name(brand: Seq<char>, title: Seq<char>) -> (Seq<char>, Seq<char>) {
    if brand.len() == 0 || brand == title {
        spec_split_brand_name(title)
    } else {
        (brand, title)
    }
}

/// The answer when a page names neither a brand nor a product.
pub open spec fn no_product_message() -> Seq<char> {
    "Couldn't find product information on that page."@
}

/// The fragrance that a page describes, with the path of its downloaded image
/// (empty when there is none). Refused when neither a brand nor a name is found.
pub fn assemble_fragrance(info: PageInfo, image_path: String) -> (r: Result<ScrapedFragrance, String>)
    ensures
        ({
            let (b, n) = spec_brand_and_name(info.brand@, info.title@);
            match r {
                Ok(f) => {
                    &&& !(b.len() == 0 && n.len() == 0)
                    &&& f.brand@ == b
                    &&& f.name@ == n
                    &&& f.notes@ == spec_truncate(info.description@, 400)
                    &&& f.price@ == info.price@
                    &&& f.image_path@ == image_path@
                },
                Err(e) => b.len() == 0 && n.len() == 0 && e@ == no_product_message(),
            }
        }),
{
    let (brand, name) = if info.brand.as_str().is_empty() || str_equal(info.brand.as_str(), info.title.as_str()) {
        split_brand_name(info.title.as_str())
    } else {
        (info.brand, info.title)
    };
    if brand.as_str().is_empty() && name.as_str().is_empty() {
        return Err("Couldn't find product information on that page.".to_string());
    }
    let notes = truncate(info.description.as_str(), 400);
    Ok(ScrapedFragrance { brand, name, notes, price: info.price, image_path })
}

/// An import keeps the page's brand and takes the page's title as the name, and
/// succeeds, whenever the page names a brand that is not the title itself,
/// whatever the title holds. The title is split into brand and name only when
/// the brand is missing or repeats the title.
pub proof fn lemma_import_keeps_page_brand(info: PageInfo, image_path: String, r: Result<ScrapedFragrance, String>)
    requires
        ({
            let (b, n) = spec_brand_and_name(info.brand@, info.title@);
            match r {
                Ok(f) => {
                    &&& !(b.len() == 0 && n.len() == 0)
                    &&& f.brand@ == b
                    &&& f.name@ == n
                    &&& f.notes@ == spec_truncate(info.description@, 400)
                    &&& f.price@ == info.price@
                    &&& f.image_path@ == image_path@
                },
                Err(e) => b.len() == 0 && n.len() == 0 && e@ == no_product_message(),
            }
        }),
    ensures
        info.brand@.len() > 0 && info.brand@ != info.title@ ==> r is Ok && r->Ok_0.brand@ == info.brand@
            && r->Ok_0.name@ == info.title@,
        info.brand@.len() == 0 || info.brand@ == info.title@ ==> match r {
            Ok(f) => (f.brand@, f.name@) == spec_split_brand_name(info.title@),
            Err(_) => spec_split_brand_name(info.title@) == (Seq::<char>::empty(), Seq::<char>::empty()),
        },
{
    if let Err(_) = r {
        let (b, n) = spec_brand_and_name(info.brand@, info.title@);
        assert(b =~= Seq::<char>::empty());
        assert(n =~= Seq::<char>::empty());
    }
}

/// The file extension under which an image downloaded from `url` is stored.
pub open spec fn spec_image_extension(url: Seq<char>) -> Seq<char> {
    if contains_seq(url, ".png"@) {
        "png"@
    } else if contains_seq(url, ".webp"@) {
        "webp"@
    } else {
        "jpg"@
    }
}

/// Picks the extension of a downloaded image by what its address mentions.
pub fn image_extension(url: &str) -> (r: &'static str)
    ensures
        r@ == spec_image_extension(url@),
{
    if str_contains(url, ".png") {
        "png"
    } else if str_contains(url, ".webp") {
        "webp"
    } else {
        "jpg"
    }
}

} // verus!
