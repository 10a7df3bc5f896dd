use vstd::prelude::*;
use vstd::std_specs::convert::TryFromSpecImpl;
use vstd::std_specs::convert::FromSpecImpl;
use vstd::string::*;
use crate::error::SourceError;
use crate::text::{join, opt_text, opt_texts};
use crate::BASE_URL;

verus! {

/// How a search result list is ordered.
#[derive(Debug, Clone, Copy, PartialEq, Eq, Structural)]
pub enum SortingOption {
    Alphabetical,
    BestMatch,
    DateAdded,
    ReleaseDate,
}

impl SortingOption {
    /// The option that filter index `index` selects, if it selects one.
    pub open spec fn from_index(index: int) -> Option<SortingOption> {
        if index == 0 {
            Some(SortingOption::Alphabetical)
        } else if index == 1 {
            Some(SortingOption::BestMatch)
        } else if index == 2 {
            Some(SortingOption::DateAdded)
        } else if index == 3 {
            Some(SortingOption::ReleaseDate)
        } else {
            None
        }
    }

    /// The word the site's `sort` parameter takes for this option.
    pub open spec fn query_value(self) -> Option<Seq<char>> {
        match self {
            SortingOption::Alphabetical => Some("name"@),
            SortingOption::BestMatch => None,
            SortingOption::DateAdded => Some("created_at"@),
            SortingOption::ReleaseDate => Some("released_on"@),
        }
    }
}

impl Default for SortingOption {
    fn default() -> (out: Self)
        ensures
            out == SortingOption::ReleaseDate,
    {
        SortingOption::ReleaseDate
    }
}

impl TryFrom<i32> for SortingOption {
    type Error = SourceError;

    fn try_from(value: i32) -> (out: Result<Self, SourceError>)
    {
        match value {
            0 => Ok(SortingOption::Alphabetical),
            1 => Ok(SortingOption::BestMatch),
            2 => Ok(SortingOption::DateAdded),
            3 => Ok(SortingOption::ReleaseDate),
            _ => Err(SourceError::Unimplemented),
        }
    }
}

impl TryFromSpecImpl<i32> for SortingOption {
    open spec fn obeys_try_from_spec() -> bool {
        true
    }

    open spec fn try_from_spec(value: i32) -> Result<Self, SourceError> {
        match SortingOption::from_index(value as int) {
            Some(option) => Ok(option),
            None => Err(SourceError::Unimplemented),
        }
    }
}

impl From<SortingOption> for Option<&'static str> {
    fn from(val: SortingOption) -> (out: Option<&'static str>)
    {
        match val {
            SortingOption::Alphabetical => Some("name"),
            SortingOption::BestMatch => None,
            SortingOption::DateAdded => Some("created_at"),
            SortingOption::ReleaseDate => Some("released_on"),
        }
    }
}

impl FromSpecImpl<SortingOption> for Option<&'static str> {
    open spec fn obeys_from_spec() -> bool {
        true
    }

    open spec fn from_spec(val: SortingOption) -> Option<&'static str> {
        match val {
            SortingOption::Alphabetical => Some("name"),
            SortingOption::BestMatch => None,
            SortingOption::DateAdded => Some("created_at"),
            SortingOption::ReleaseDate => Some("released_on"),
        }
    }
}

/// The sort list has four positions and no more: an index selects an option
/// exactly when it is one of 0, 1, 2 and 3. Each option has its own word for
/// the `sort` parameter, but for the best match, which has none.
pub proof fn law_sort_index(index: int)
    ensures
        SortingOption::from_index(index) is Some <==> 0 <= index <= 3,
        index == 0 ==> SortingOption::from_index(index)->0.query_value() == Some("name"@),
        index == 1 ==> SortingOption::from_index(index)->0.query_value() is None,
        index == 2 ==> SortingOption::from_index(index)->0.query_value() == Some("created_at"@),
        index == 3 ==> SortingOption::from_index(index)->0.query_value() == Some("released_on"@),
{
}

/// What kind of work a catalogue record describes.
#[derive(Debug, Clone, Copy, PartialEq, Eq, Structural)]
pub enum DynastyScansMangaType {
    Anthology,
    Doujin,
    Series,
}

impl DynastyScansMangaType {
    /// The path segment under which the site keeps works of this kind.
    pub open spec fn slug(self) -> Seq<char> {
        match self {
            DynastyScansMangaType::Anthology => "anthology"@,
            DynastyScansMangaType::Doujin => "doujin"@,
            DynastyScansMangaType::Series => "series"@,
        }
    }

    pub fn as_str(&self) -> (out: &'static str)
        ensures
            out@ == self.slug(),
    {
        match self {
            DynastyScansMangaType::Anthology => "anthology",
            DynastyScansMangaType::Doujin => "doujin",
            DynastyScansMangaType::Series => "series",
        }
    }

    pub fn to_string(&self) -> (out: String)
        ensures
            out@ == self.slug(),
    {
        String::from_str(self.as_str())
    }
}

/// A detail record as the site serves it.
#[derive(Debug, Clone)]
pub struct DynastyScansManga {
    pub name: String,
    pub permalink: String,
    pub kind: DynastyScansMangaType,
    pub cover_url: Option<String>,
    pub description: Option<String>,
}

/// The mathematical content of a [`DynastyScansManga`].
pub ghost struct DynastyScansMangaView {
    pub name: Seq<char>,
    pub permalink: Seq<char>,
    pub kind: DynastyScansMangaType,
    pub cover_url: Option<Seq<char>>,
    pub description: Option<Seq<char>>,
}

impl View for DynastyScansManga {
    type V = DynastyScansMangaView;

    open spec fn view(&self) -> DynastyScansMangaView {
        DynastyScansMangaView {
            name: self.name@,
            permalink: self.permalink@,
            kind: self.kind,
            cover_url: opt_text(self.cover_url),
            description: opt_text(self.description),
        }
    }
}

/// Whether a work is still being published.
#[derive(Debug, Clone, Copy, PartialEq, Eq, Structural)]
pub enum MangaStatus {
    Unknown,
    Ongoing,
    Completed,
    Cancelled,
    Hiatus,
}

/// How far a work is fit for every reader.
#[derive(Debug, Clone, Copy, PartialEq, Eq, Structural)]
pub enum ContentRating {
    Unknown,
    Safe,
    Suggestive,
    Nsfw,
}

/// One entry of the catalogue in the shape the reader application takes.
#[derive(Debug, Clone)]
pub struct Manga {
    pub key: String,
    pub title: String,
    pub cover: Option<String>,
    pub artists: Option<Vec<String>>,
    pub authors: Option<Vec<String>>,
    pub description: Option<String>,
    pub url: Option<String>,
    pub tags: Option<Vec<String>>,
    pub status: MangaStatus,
    pub content_rating: ContentRating,
}

/// The mathematical content of a [`Manga`].
pub ghost struct MangaView {
    pub key: Seq<char>,
    pub title: Seq<char>,
    pub cover: Option<Seq<char>>,
    pub artists: Option<Seq<Seq<char>>>,
    pub authors: Option<Seq<Seq<char>>>,
    pub description: Option<Seq<char>>,
    pub url: Option<Seq<char>>,
    pub tags: Option<Seq<Seq<char>>>,
    pub status: MangaStatus,
    pub content_rating: ContentRating,
}

impl View for Manga {
    type V = MangaView;

    open spec fn view(&self) -> MangaView {
        MangaView {
            key: self.key@,
            title: self.title@,
            cover: opt_text(self.cover),
            artists: opt_texts(self.artists),
            authors: opt_texts(self.authors),
            description: opt_text(self.description),
            url: opt_text(self.url),
            tags: opt_texts(self.tags),
            status: self.status,
            content_rating: self.content_rating,
        }
    }
}

/// The address of a path on the site.
pub open spec fn site_url(path: Seq<char>) -> Seq<char> {
    BASE_URL@ + path
}

/// The catalogue entry that stands for a detail record: keyed by the
/// record's permalink, titled by its name, addressed under the segment of
/// its kind, with the cover made a full address.
pub open spec fn entry_of_details(details: DynastyScansMangaView) -> MangaView {
    MangaView {
        key: details.permalink,
        title: details.name,
        cover: match details.cover_url {
            Some(path) => Some(site_url(path)),
            None => None,
        },
        artists: None,
        authors: None,
        description: details.description,
        url: Some(site_url(seq!['/'] + details.kind.slug() + seq!['/'] + details.permalink)),
        tags: None,
        status: MangaStatus::Unknown,
        content_rating: ContentRating::Unknown,
    }
}

impl From<DynastyScansManga> for Manga {
    fn from(val: DynastyScansManga) -> (out: Manga)
        ensures
            out@ == entry_of_details(val@),
    {
        let mut url = String::from_str(BASE_URL);
        url.append("/");
        url.append(val.kind.as_str());
        url.append("/");
        url.append(val.permalink.as_str());
        let cover = match val.cover_url {
            Some(path) => Some(join(BASE_URL, path.as_str())),
            None => None,
        };
        proof {
            reveal_strlit("/");
            assert("/"@ =~= seq!['/']);
            assert(url@ =~= site_url(seq!['/'] + val.kind.slug() + seq!['/'] + val.permalink@));
        }
        Manga {
            url: Some(url),
            key: val.permalink,
            title: val.name,
            cover,
            artists: None,
            authors: None,
            description: val.description,
            tags: None,
            status: MangaStatus::Unknown,
            content_rating: ContentRating::Unknown,
        }
    }
}

impl FromSpecImpl<DynastyScansManga> for Manga {
    open spec fn obeys_from_spec() -> bool {
        false
    }

    open spec fn from_spec(val: DynastyScansManga) -> Manga {
        arbitrary()
    }
}

/// One page of search results.
#[derive(Debug, Clone)]
pub struct MangaPageResult {
    pub entries: Vec<Manga>,
    pub has_next_page: bool,
}

} // verus!
