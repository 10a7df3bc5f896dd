use vstd::prelude::*;
use vstd::string::*;
use crate::text::opt_text;
use crate::DynastyScans;

verus! {

/// The shape of a section of the home screen.
#[derive(Debug, Clone, Copy, PartialEq, Eq, Structural)]
pub enum HomeComponentValue {
    /// A row of large covers, still empty.
    BigScroller,
    /// A list of works with their newest chapters, still empty.
    MangaChapterList,
}

/// One section of the home screen.
#[derive(Debug, Clone)]
pub struct HomeComponent {
    pub title: Option<String>,
    pub subtitle: Option<String>,
    pub value: HomeComponentValue,
}

impl View for HomeComponent {
    type V = (Option<Seq<char>>, Option<Seq<char>>, HomeComponentValue);

    open spec fn view(&self) -> (Option<Seq<char>>, Option<Seq<char>>, HomeComponentValue) {
        (opt_text(self.title), opt_text(self.subtitle), self.value)
    }
}

impl DynastyScans {
    /// The sections the home screen shows before any content has loaded.
    pub fn get_home(&self) -> (components: Vec<HomeComponent>)
        ensures
            components@.len() == 2,
            components@[0]@ == (Some("Popular New Titles"@), None::<Seq<char>>, HomeComponentValue::BigScroller),
            components@[1]@ == (Some("Latest Updates"@), None::<Seq<char>>, HomeComponentValue::MangaChapterList),
    {
        let mut components: Vec<HomeComponent> = Vec::new();
        components.push(
            HomeComponent {
                title: Some(String::from_str("Popular New Titles")),
                subtitle: None,
                value: HomeComponentValue::BigScroller,
            },
        );
        components.push(
            HomeComponent {
                title: Some(String::from_str("Latest Updates")),
                subtitle: None,
                value: HomeComponentValue::MangaChapterList,
            },
        );
        components
    }
}

} // verus!
