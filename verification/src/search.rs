use vstd::prelude::*;
use vstd::string::*;
use crate::model::{site_url, ContentRating, Manga, MangaPageResult, MangaStatus, MangaView};
use crate::text::{chars_of, opt_text, parse_decimal, parse_i32, texts};
use crate::{DynastyScans, BASE_URL, COVER_QUERY_PARAMETERS_FLAG};

verus! {

/// What the result page shows of one listed work: the text of its link and
/// the path the link leads to, each as far as the page has it.
#[derive(Debug, Clone)]
pub struct Link {
    pub title: Option<String>,
    pub href: Option<String>,
}

impl View for Link {
    type V = (Option<Seq<char>>, Option<Seq<char>>);

    open spec fn view(&self) -> (Option<Seq<char>>, Option<Seq<char>>) {
        (opt_text(self.title), opt_text(self.href))
    }
}

/// The views of a list of links, in order.
pub open spec fn link_views(links: Seq<Link>) -> Seq<(Option<Seq<char>>, Option<Seq<char>>)> {
    Seq::new(links.len(), |i: int| links[i]@)
}

/// The views of a list of catalogue entries, in order.
pub open spec fn entry_views(entries: Seq<Manga>) -> Seq<MangaView> {
    Seq::new(entries.len(), |i: int| entries[i]@)
}

/// The greatest page number among `labels`, where any of them is a number.
pub open spec fn greatest_page(labels: Seq<Seq<char>>) -> Option<int>
    decreases labels.len(),
{
    if labels.len() == 0 {
        None
    } else {
        let before = greatest_page(labels.drop_last());
        match parse_decimal(labels.last()) {
            None => before,
            Some(number) => match before {
                Some(greatest) if greatest >= number => before,
                _ => Some(number),
            },
        }
    }
}

/// How many pages a result has, read off the labels of its page links: the
/// greatest number among them, and one where none is a number.
pub open spec fn total_pages(labels: Seq<Seq<char>>) -> int {
    match greatest_page(labels) {
        Some(greatest) => greatest,
        None => 1,
    }
}

/// [`greatest_page`] is the maximum of the labels that are numbers.
pub proof fn lemma_greatest_page(labels: Seq<Seq<char>>)
    ensures
        greatest_page(labels) is None <==> forall|i: int| 0 <= i < labels.len() ==> parse_decimal(#[trigger] labels[i]) is None,
        greatest_page(labels) matches Some(greatest) ==> {
            &&& exists|i: int| 0 <= i < labels.len() && parse_decimal(#[trigger] labels[i]) == Some(greatest)
            &&& forall|i: int| 0 <= i < labels.len() ==> (parse_decimal(#[trigger] labels[i]) matches Some(number) ==> number <= greatest)
        },
    decreases labels.len(),
{
    if labels.len() > 0 {
        let head = labels.drop_last();
        lemma_greatest_page(head);
        assert forall|i: int| 0 <= i < head.len() implies head[i] == labels[i] by {}
        let last = labels.len() - 1;
        match greatest_page(labels) {
            Some(greatest) => {
                if parse_decimal(labels[last]) == Some(greatest) {
                } else {
                    let i = choose|i: int| 0 <= i < head.len() && parse_decimal(#[trigger] head[i]) == Some(greatest);
                    assert(parse_decimal(labels[i]) == Some(greatest));
                }
                assert forall|i: int| 0 <= i < labels.len() implies (parse_decimal(#[trigger] labels[i]) matches Some(number)
                    ==> number <= greatest) by {
                    if i < last {
                        assert(parse_decimal(head[i]) == parse_decimal(labels[i]));
                    }
                }
            },
            None => {
                assert forall|i: int| 0 <= i < labels.len() implies parse_decimal(#[trigger] labels[i]) is None by {
                    if i < last {
                        assert(parse_decimal(head[i]) is None);
                    }
                }
            },
        }
        if forall|i: int| 0 <= i < labels.len() ==> parse_decimal(#[trigger] labels[i]) is None {
            assert(parse_decimal(labels[last]) is None);
            assert forall|i: int| 0 <= i < head.len() implies parse_decimal(#[trigger] head[i]) is None by {
                assert(parse_decimal(labels[i]) is None);
            }
        }
    }
}

/// A path whose first character is a single byte: only the key of such a
/// path can be cut off behind that character.
pub open spec fn sliceable(href: Seq<char>) -> bool {
    href.len() > 0 && (href[0] as u32) < 128
}

/// The catalogue entry of a listed work: keyed by its path without the
/// leading slash, titled by its link text, and with a cover address that is
/// the work's own address marked for later lookup.
pub open spec fn entry_of_link(title: Seq<char>, href: Seq<char>) -> MangaView {
    MangaView {
        key: href.skip(1),
        title,
        cover: Some(site_url(href) + COVER_QUERY_PARAMETERS_FLAG@),
        artists: None,
        authors: None,
        description: None,
        url: None,
        tags: None,
        status: MangaStatus::Unknown,
        content_rating: ContentRating::Unknown,
    }
}

/// The entries of a result page: one for each link that has both a text and
/// a path, in the order of the page.
pub open spec fn entries_of(links: Seq<(Option<Seq<char>>, Option<Seq<char>>)>) -> Seq<MangaView>
    decreases links.len(),
{
    if links.len() == 0 {
        Seq::empty()
    } else {
        let before = entries_of(links.drop_last());
        match links.last() {
            (Some(title), Some(href)) => before.push(entry_of_link(title, href)),
            _ => before,
        }
    }
}

/// Every link that yields an entry has a path whose key can be cut.
pub open spec fn all_sliceable(links: Seq<(Option<Seq<char>>, Option<Seq<char>>)>) -> bool {
    forall|i: int| 0 <= i < links.len() ==> ((#[trigger] links[i]) matches (Some(_), Some(href)) ==> sliceable(href))
}

impl Link {
    /// Whether this link can be turned into an entry without cutting a
    /// character in two: it lacks a text or a path, or its path is
    /// [`sliceable`].
    pub fn is_usable(&self) -> (usable: bool)
        ensures
            usable == (self@ matches (Some(_), Some(href)) ==> sliceable(href)),
    {
        match (&self.title, &self.href) {
            (Some(_), Some(href)) => {
                let chars = chars_of(href.as_str());
                chars.len() > 0 && (chars[0] as u32) < 128
            },
            _ => true,
        }
    }
}

/// Reads the number of pages off the labels of the page links.
pub fn count_pages(labels: &Vec<String>) -> (pages: i32)
    ensures
        pages == total_pages(texts(labels@)),
        (forall|i: int| 0 <= i < labels@.len() ==> parse_decimal(#[trigger] labels@[i]@) is None) ==> pages == 1,
        forall|i: int| 0 <= i < labels@.len() ==> (parse_decimal(#[trigger] labels@[i]@) matches Some(number) ==> number <= pages),
        (exists|i: int| 0 <= i < labels@.len() && parse_decimal(#[trigger] labels@[i]@) is Some) ==> exists|i: int|
            0 <= i < labels@.len() && parse_decimal(#[trigger] labels@[i]@) == Some(pages as int),
{
    let ghost all = texts(labels@);
    let mut greatest: Option<i32> = None;
    let mut k: usize = 0;
    while k < labels.len()
        invariant
            k <= labels@.len(),
            all == texts(labels@),
            greatest matches Some(g) ==> greatest_page(all.take(k as int)) == Some(g as int),
            greatest is None ==> greatest_page(all.take(k as int)) is None,
        decreases labels.len() - k,
    {
        proof {
            assert(all.take(k + 1).drop_last() =~= all.take(k as int));
            assert(all.take(k + 1).last() == labels@[k as int]@);
        }
        match parse_i32(labels[k].as_str()) {
            Some(number) => {
                greatest = match greatest {
                    Some(g) if g >= number => greatest,
                    _ => Some(number),
                };
            },
            None => {},
        }
        k += 1;
    }
    proof {
        assert(all.take(labels@.len() as int) =~= all);
        lemma_greatest_page(all);
        assert forall|i: int| 0 <= i < labels@.len() implies all[i] == (#[trigger] labels@[i])@ by {}
        if greatest_page(all) is Some {
            let at = choose|i: int| 0 <= i < all.len() && parse_decimal(#[trigger] all[i]) == greatest_page(all);
            assert(parse_decimal(labels@[at]@) == greatest_page(all));
        }
        if exists|i: int| 0 <= i < labels@.len() && parse_decimal(#[trigger] labels@[i]@) is Some {
            let i = choose|i: int| 0 <= i < labels@.len() && parse_decimal(#[trigger] labels@[i]@) is Some;
            assert(parse_decimal(all[i]) is Some);
        }
    }
    match greatest {
        Some(g) => g,
        None => 1,
    }
}

impl DynastyScans {
    /// Builds one page of search results from what the result page shows: the
    /// labels of its page links and the links of the listed works.
    pub fn search_page(&self, page: i32, labels: &Vec<String>, links: Vec<Link>) -> (out: MangaPageResult)
        requires
            all_sliceable(link_views(links@)),
        ensures
            entry_views(out.entries@) == entries_of(link_views(links@)),
            out.has_next_page == (page < total_pages(texts(labels@))),
    {
        let ghost given = links@;
        let ghost views = link_views(given);
        let mut entries: Vec<Manga> = Vec::new();
        for link in it: links.into_iter()
            invariant
                it.seq() == given,
                views == link_views(given),
                all_sliceable(views),
                entry_views(entries@) == entries_of(views.take(it.index())),
        {
            let ghost at = it.index();
            proof {
                assert(views.take(at + 1).drop_last() =~= views.take(at));
                assert(views.take(at + 1).last() == link@);
                assert(views[at] == link@);
            }
            match (link.title, link.href) {
                (Some(title), Some(href)) => {
                    let ghost before = entries@;
                    let length = href.as_str().unicode_len();
                    let key = String::from_str(href.as_str().substring_char(1, length));
                    let mut cover = String::from_str(BASE_URL);
                    cover.append(href.as_str());
                    cover.append(COVER_QUERY_PARAMETERS_FLAG);
                    let entry = Manga {
                        key,
                        title,
                        cover: Some(cover),
                        artists: None,
                        authors: None,
                        description: None,
                        url: None,
                        tags: None,
                        status: MangaStatus::Unknown,
                        content_rating: ContentRating::Unknown,
                    };
                    proof {
                        assert(href@.subrange(1, href@.len() as int) =~= href@.skip(1));
                        assert(entry@ == entry_of_link(title@, href@));
                    }
                    entries.push(entry);
                    proof {
                        assert(entry_views(entries@) =~= entry_views(before).push(entry@));
                    }
                },
                _ => {},
            }
        }
        proof {
            assert(views.take(given.len() as int) =~= views);
        }
        let pages = count_pages(labels);
        MangaPageResult { entries, has_next_page: page < pages }
    }
}

} // verus!
