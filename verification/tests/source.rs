use dynastyscans::cover::ImageRequest;
use dynastyscans::error::SourceError;
use dynastyscans::home::HomeComponentValue;
use dynastyscans::model::{ContentRating, DynastyScansManga, DynastyScansMangaType, MangaStatus};
use dynastyscans::query::{FilterValue, QueryParameters};
use dynastyscans::search::{count_pages, Link};
use dynastyscans::{DynastyScans, RateLimit, BASE_URL, COVER_QUERY_PARAMETERS_FLAG};

fn strings(items: &[&str]) -> Vec<String> {
    items.iter().map(|item| item.to_string()).collect()
}

fn pairs(parameters: &QueryParameters) -> Vec<(String, Option<String>)> {
    parameters.params.iter().map(|p| (p.key.clone(), p.value.clone())).collect()
}

fn pair(key: &str, value: Option<&str>) -> (String, Option<String>) {
    (key.to_string(), value.map(|v| v.to_string()))
}

fn tags(included: &[&str], excluded: &[&str]) -> FilterValue {
    FilterValue::MultiSelect { id: "Tag".to_string(), included: strings(included), excluded: strings(excluded) }
}

fn sort(index: i32) -> FilterValue {
    FilterValue::Sort { id: "Sort".to_string(), index }
}

fn link(title: Option<&str>, href: Option<&str>) -> Link {
    Link { title: title.map(|t| t.to_string()), href: href.map(|h| h.to_string()) }
}

fn details(cover: Option<&str>) -> DynastyScansManga {
    DynastyScansManga {
        name: "Name".to_string(),
        permalink: "name".to_string(),
        kind: DynastyScansMangaType::Series,
        cover_url: cover.map(|c| c.to_string()),
        description: None,
    }
}

#[test]
fn constants_of_the_site() {
    assert_eq!(BASE_URL, "https://dynasty-scans.com");
    assert_eq!(COVER_QUERY_PARAMETERS_FLAG, "?dsCover");
    assert_eq!(DynastyScans::new().rate_limit(), RateLimit { permits: 5, period_seconds: 1 });
}

#[test]
fn query_with_sort_and_included_tag() {
    let parameters = DynastyScans::new()
        .search_parameters(Some("abc".to_string()), 2, vec![sort(3), tags(&["X"], &[])])
        .unwrap();
    assert_eq!(
        pairs(&parameters),
        vec![
            pair("page", Some("2")),
            pair("q", Some("abc")),
            pair("classes[]", Some("Series")),
            pair("with[]", Some("X")),
            pair("sort", Some("released_on")),
        ]
    );
    assert!(parameters.params.iter().all(|p| p.key != "without[]"));
}

#[test]
fn query_without_filters_sorts_by_release_date() {
    let parameters = DynastyScans::new().search_parameters(None, 1, vec![]).unwrap();
    assert_eq!(
        pairs(&parameters),
        vec![
            pair("page", Some("1")),
            pair("q", None),
            pair("classes[]", Some("Series")),
            pair("sort", Some("released_on")),
        ]
    );
}

#[test]
fn query_keeps_the_order_of_tags_and_lets_the_last_sort_win() {
    let parameters = DynastyScans::new()
        .search_parameters(
            Some("a b".to_string()),
            -3,
            vec![tags(&["A", "B"], &["Z"]), sort(0), tags(&["C"], &["Y", "X"]), sort(2)],
        )
        .unwrap();
    assert_eq!(
        pairs(&parameters),
        vec![
            pair("page", Some("-3")),
            pair("q", Some("a b")),
            pair("classes[]", Some("Series")),
            pair("with[]", Some("A")),
            pair("with[]", Some("B")),
            pair("with[]", Some("C")),
            pair("without[]", Some("Z")),
            pair("without[]", Some("Y")),
            pair("without[]", Some("X")),
            pair("sort", Some("created_at")),
        ]
    );
}

#[test]
fn query_by_best_match_has_no_sort_parameter() {
    let parameters = DynastyScans::new()
        .search_parameters(Some("abc".to_string()), 1, vec![sort(1)])
        .unwrap();
    assert_eq!(
        pairs(&parameters),
        vec![pair("page", Some("1")), pair("q", Some("abc")), pair("classes[]", Some("Series"))]
    );
    assert!(parameters.params.iter().all(|p| p.key != "sort"));
    let parameters = DynastyScans::new()
        .search_parameters(None, 1, vec![sort(3), tags(&["A"], &["B"]), sort(1)])
        .unwrap();
    assert!(parameters.params.iter().all(|p| p.key != "sort"));
    assert_eq!(pairs(&parameters).last(), Some(&pair("without[]", Some("B"))));
}

#[test]
fn query_by_another_ordering_ends_with_its_word() {
    let parameters = DynastyScans::new().search_parameters(None, 1, vec![sort(0)]).unwrap();
    assert_eq!(pairs(&parameters).last(), Some(&pair("sort", Some("name"))));
    let parameters = DynastyScans::new().search_parameters(None, 1, vec![sort(1), sort(2)]).unwrap();
    assert_eq!(pairs(&parameters).last(), Some(&pair("sort", Some("created_at"))));
    assert_eq!(parameters.params.iter().filter(|p| p.key == "sort").count(), 1);
}

#[test]
fn unsupported_filters_are_rejected() {
    let site = DynastyScans::new();
    let rejected = |filters: Vec<FilterValue>| {
        assert_eq!(site.search_parameters(None, 1, filters).err(), Some(SourceError::Unimplemented));
    };
    rejected(vec![FilterValue::Other]);
    rejected(vec![sort(4)]);
    rejected(vec![sort(-1)]);
    rejected(vec![FilterValue::Sort { id: "sort".to_string(), index: 0 }]);
    rejected(vec![FilterValue::MultiSelect { id: "Genre".to_string(), included: vec![], excluded: vec![] }]);
    rejected(vec![sort(0), tags(&["A"], &[]), FilterValue::Other]);
    rejected(vec![sort(9), sort(0)]);
}

#[test]
fn marked_cover_address_leads_to_the_detail_record() {
    let site = DynastyScans::new();
    match site.get_image_request("https://dynasty-scans.com/series/name?dsCover".to_string()) {
        ImageRequest::Details(address) => assert_eq!(address, "https://dynasty-scans.com/series/name.json"),
        ImageRequest::Direct(_) => panic!("the mark was not seen"),
    }
    assert_eq!(
        site.cover_request(details(Some("/system/covers/9.png"))),
        Ok("https://dynasty-scans.com/system/covers/9.png".to_string())
    );
}

#[test]
fn detail_record_without_cover_is_an_error() {
    assert_eq!(DynastyScans::new().cover_request(details(None)), Err(SourceError::MissingCover));
}

#[test]
fn unmarked_image_address_is_fetched_as_it_is() {
    let site = DynastyScans::new();
    for url in ["https://dynasty-scans.com/system/1.jpg", "", "?dscover", "x?dsCove"] {
        match site.get_image_request(url.to_string()) {
            ImageRequest::Direct(address) => assert_eq!(address, url),
            ImageRequest::Details(_) => panic!("a mark was seen where there is none"),
        }
    }
}

#[test]
fn the_first_mark_counts() {
    let site = DynastyScans::new();
    match site.get_image_request("é/a?dsCover/b?dsCover&x=1".to_string()) {
        ImageRequest::Details(address) => assert_eq!(address, "é/a.json"),
        ImageRequest::Direct(_) => panic!("the mark was not seen"),
    }
    match site.get_image_request("?dsCover".to_string()) {
        ImageRequest::Details(address) => assert_eq!(address, ".json"),
        ImageRequest::Direct(_) => panic!("the mark was not seen"),
    }
}

#[test]
fn page_count_is_the_greatest_number_among_the_labels() {
    assert_eq!(count_pages(&strings(&[])), 1);
    assert_eq!(count_pages(&strings(&["←", "Next", ""])), 1);
    assert_eq!(count_pages(&strings(&["1", "2", "3", "…", "17", "→"])), 17);
    assert_eq!(count_pages(&strings(&["5", "12", "7"])), 12);
    assert_eq!(count_pages(&strings(&["-4", "x"])), -4);
    assert_eq!(count_pages(&strings(&["0"])), 0);
    assert_eq!(count_pages(&strings(&["2147483648", "3"])), 3);
}

#[test]
fn search_page_lists_the_links_that_have_text_and_path() {
    let page = DynastyScans::new().search_page(
        2,
        &strings(&["1", "2", "3"]),
        vec![
            link(Some("First"), Some("/series/first")),
            link(None, Some("/series/untitled")),
            link(Some("No path"), None),
            link(None, None),
            link(Some("Second"), Some("/anthologies/second")),
        ],
    );
    assert!(page.has_next_page);
    assert_eq!(page.entries.len(), 2);
    let first = &page.entries[0];
    assert_eq!(first.key, "series/first");
    assert_eq!(first.title, "First");
    assert_eq!(first.cover.as_deref(), Some("https://dynasty-scans.com/series/first?dsCover"));
    assert_eq!(first.url, None);
    assert_eq!(first.description, None);
    assert_eq!(first.tags, None);
    assert_eq!(first.artists, None);
    assert_eq!(first.authors, None);
    assert_eq!(first.status, MangaStatus::Unknown);
    assert_eq!(first.content_rating, ContentRating::Unknown);
    let second = &page.entries[1];
    assert_eq!(second.key, "anthologies/second");
    assert_eq!(second.title, "Second");
    assert_eq!(second.cover.as_deref(), Some("https://dynasty-scans.com/anthologies/second?dsCover"));
}

#[test]
fn search_page_knows_the_last_page() {
    let site = DynastyScans::new();
    assert!(!site.search_page(3, &strings(&["1", "2", "3"]), vec![]).has_next_page);
    assert!(!site.search_page(1, &strings(&[]), vec![]).has_next_page);
    assert!(site.search_page(0, &strings(&[]), vec![]).has_next_page);
    assert!(site.search_page(1, &strings(&["x", "2"]), vec![]).has_next_page);
    assert!(site.search_page(1, &strings(&["x", "2"]), vec![]).entries.is_empty());
}

#[test]
fn cover_of_a_search_entry_resolves_through_the_detail_record() {
    let site = DynastyScans::new();
    let page = site.search_page(1, &strings(&[]), vec![link(Some("T"), Some("/series/t"))]);
    let cover = page.entries[0].cover.clone().unwrap();
    match site.get_image_request(cover) {
        ImageRequest::Details(address) => assert_eq!(address, "https://dynasty-scans.com/series/t.json"),
        ImageRequest::Direct(_) => panic!("the mark was not seen"),
    }
}

#[test]
fn links_say_whether_their_key_can_be_cut() {
    assert!(link(Some("t"), Some("/a")).is_usable());
    assert!(link(Some("t"), Some("a")).is_usable());
    assert!(link(Some("t"), Some("/é")).is_usable());
    assert!(!link(Some("t"), Some("")).is_usable());
    assert!(!link(Some("t"), Some("é/a")).is_usable());
    assert!(link(None, Some("")).is_usable());
    assert!(link(Some("t"), None).is_usable());
    assert!(link(None, None).is_usable());
}

#[test]
fn home_shows_two_empty_sections() {
    let home = DynastyScans::new().get_home();
    assert_eq!(home.len(), 2);
    assert_eq!(home[0].title.as_deref(), Some("Popular New Titles"));
    assert_eq!(home[0].subtitle, None);
    assert_eq!(home[0].value, HomeComponentValue::BigScroller);
    assert_eq!(home[1].title.as_deref(), Some("Latest Updates"));
    assert_eq!(home[1].subtitle, None);
    assert_eq!(home[1].value, HomeComponentValue::MangaChapterList);
}
