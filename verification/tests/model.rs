use dynastyscans::error::SourceError;
use dynastyscans::model::{
    ContentRating, DynastyScansManga, DynastyScansMangaType, Manga, MangaStatus, SortingOption,
};

#[test]
fn sort_index_maps_to_its_option() {
    assert_eq!(SortingOption::try_from(0), Ok(SortingOption::Alphabetical));
    assert_eq!(SortingOption::try_from(1), Ok(SortingOption::BestMatch));
    assert_eq!(SortingOption::try_from(2), Ok(SortingOption::DateAdded));
    assert_eq!(SortingOption::try_from(3), Ok(SortingOption::ReleaseDate));
}

#[test]
fn sort_index_outside_the_list_is_rejected() {
    for index in [-1, 4, 5, 100, i32::MIN, i32::MAX] {
        assert_eq!(SortingOption::try_from(index), Err(SourceError::Unimplemented));
    }
}

#[test]
fn sort_option_maps_to_its_query_value() {
    assert_eq!(Option::<&str>::from(SortingOption::Alphabetical), Some("name"));
    assert_eq!(Option::<&str>::from(SortingOption::BestMatch), None);
    assert_eq!(Option::<&str>::from(SortingOption::DateAdded), Some("created_at"));
    assert_eq!(Option::<&str>::from(SortingOption::ReleaseDate), Some("released_on"));
}

#[test]
fn default_sort_is_release_date() {
    assert_eq!(SortingOption::default(), SortingOption::ReleaseDate);
}

#[test]
fn kind_is_written_in_lower_case() {
    assert_eq!(DynastyScansMangaType::Anthology.to_string(), "anthology");
    assert_eq!(DynastyScansMangaType::Doujin.to_string(), "doujin");
    assert_eq!(DynastyScansMangaType::Series.to_string(), "series");
    assert_eq!(DynastyScansMangaType::Series.as_str(), "series");
}

#[test]
fn details_become_a_catalogue_entry() {
    let entry = Manga::from(DynastyScansManga {
        name: "A Title".to_string(),
        permalink: "a_title".to_string(),
        kind: DynastyScansMangaType::Series,
        cover_url: Some("/system/covers/1.jpg".to_string()),
        description: Some("About it".to_string()),
    });
    assert_eq!(entry.key, "a_title");
    assert_eq!(entry.title, "A Title");
    assert_eq!(entry.url.as_deref(), Some("https://dynasty-scans.com/series/a_title"));
    assert_eq!(entry.cover.as_deref(), Some("https://dynasty-scans.com/system/covers/1.jpg"));
    assert_eq!(entry.description.as_deref(), Some("About it"));
    assert_eq!(entry.artists, None);
    assert_eq!(entry.authors, None);
    assert_eq!(entry.tags, None);
    assert_eq!(entry.status, MangaStatus::Unknown);
    assert_eq!(entry.content_rating, ContentRating::Unknown);
}

#[test]
fn details_without_cover_become_an_entry_without_cover() {
    let entry = Manga::from(DynastyScansManga {
        name: "Short".to_string(),
        permalink: "short".to_string(),
        kind: DynastyScansMangaType::Doujin,
        cover_url: None,
        description: None,
    });
    assert_eq!(entry.url.as_deref(), Some("https://dynasty-scans.com/doujin/short"));
    assert_eq!(entry.cover, None);
    assert_eq!(entry.description, None);
}
