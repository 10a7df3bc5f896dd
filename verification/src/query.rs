use vstd::prelude::*;
use vstd::string::*;
use crate::error::SourceError;
use crate::model::SortingOption;
use crate::DynastyScans;
use crate::text::{decimal, decimal_string, lemma_texts_concat, opt_str, opt_text, same_text, texts};

verus! {

/// A filter selection as the reader application hands it over, reduced to
/// what the site's search understands.
#[derive(Debug, Clone)]
pub enum FilterValue {
    /// A choice from a sort list: which list, and the position chosen.
    Sort { id: String, index: i32 },
    /// A choice from a multi-select list: which list, and the entries to
    /// demand and to rule out.
    MultiSelect { id: String, included: Vec<String>, excluded: Vec<String> },
    /// Any other kind of filter.
    Other,
}

/// The mathematical content of a [`FilterValue`].
pub ghost enum FilterView {
    Sort { id: Seq<char>, index: int },
    MultiSelect { id: Seq<char>, included: Seq<Seq<char>>, excluded: Seq<Seq<char>> },
    Other,
}

impl View for FilterValue {
    type V = FilterView;

    open spec fn view(&self) -> FilterView {
        match self {
            FilterValue::Sort { id, index } => FilterView::Sort { id: id@, index: *index as int },
            FilterValue::MultiSelect { id, included, excluded } => FilterView::MultiSelect {
                id: id@,
                included: texts(included@),
                excluded: texts(excluded@),
            },
            FilterValue::Other => FilterView::Other,
        }
    }
}

/// The views of a list of filters, in order.
pub open spec fn filter_views(filters: Seq<FilterValue>) -> Seq<FilterView> {
    Seq::new(filters.len(), |i: int| filters[i]@)
}

/// A filter the search can express: the sort list with one of its four
/// positions, or the tag list.
pub open spec fn supported(filter: FilterView) -> bool {
    match filter {
        FilterView::Sort { id, index } => id == "Sort"@ && SortingOption::from_index(index) is Some,
        FilterView::MultiSelect { id, .. } => id == "Tag"@,
        FilterView::Other => false,
    }
}

/// The ordering that `filters` select: that of the last sort filter among
/// them, and by release date where there is none.
pub open spec fn chosen_sort(filters: Seq<FilterView>) -> SortingOption
    decreases filters.len(),
{
    if filters.len() == 0 {
        SortingOption::ReleaseDate
    } else {
        match filters.last() {
            FilterView::Sort { id, index } => match SortingOption::from_index(index) {
                Some(option) => option,
                None => chosen_sort(filters.drop_last()),
            },
            _ => chosen_sort(filters.drop_last()),
        }
    }
}

/// The tags that `filters` demand, in the order given.
pub open spec fn included_tags(filters: Seq<FilterView>) -> Seq<Seq<char>>
    decreases filters.len(),
{
    if filters.len() == 0 {
        Seq::empty()
    } else {
        included_tags(filters.drop_last()) + (match filters.last() {
            FilterView::MultiSelect { included, .. } => included,
            _ => Seq::empty(),
        })
    }
}

/// The tags that `filters` rule out, in the order given.
pub open spec fn excluded_tags(filters: Seq<FilterView>) -> Seq<Seq<char>>
    decreases filters.len(),
{
    if filters.len() == 0 {
        Seq::empty()
    } else {
        excluded_tags(filters.drop_last()) + (match filters.last() {
            FilterView::MultiSelect { excluded, .. } => excluded,
            _ => Seq::empty(),
        })
    }
}

/// One query parameter: its name, and its value where it has one.
#[derive(Debug, Clone)]
pub struct QueryParameter {
    pub key: String,
    pub value: Option<String>,
}

impl View for QueryParameter {
    type V = (Seq<char>, Option<Seq<char>>);

    open spec fn view(&self) -> (Seq<char>, Option<Seq<char>>) {
        (self.key@, opt_text(self.value))
    }
}

/// An ordered list of query parameters.
#[derive(Debug, Clone)]
pub struct QueryParameters {
    pub params: Vec<QueryParameter>,
}

impl View for QueryParameters {
    type V = Seq<(Seq<char>, Option<Seq<char>>)>;

    open spec fn view(&self) -> Seq<(Seq<char>, Option<Seq<char>>)> {
        Seq::new(self.params@.len(), |i: int| self.params@[i]@)
    }
}

impl QueryParameters {
    pub fn new() -> (out: Self)
        ensures
            out@ == Seq::<(Seq<char>, Option<Seq<char>>)>::empty(),
    {
        let out = QueryParameters { params: Vec::new() };
        assert(out@ =~= Seq::<(Seq<char>, Option<Seq<char>>)>::empty());
        out
    }

    /// Adds a parameter at the end.
    pub fn push(&mut self, key: &str, value: Option<&str>)
        ensures
            final(self)@ == old(self)@.push((key@, opt_str(value))),
    {
        let owned = match value {
            Some(text) => Some(String::from_str(text)),
            None => None,
        };
        self.params.push(QueryParameter { key: String::from_str(key), value: owned });
        assert(self@ =~= old(self)@.push((key@, opt_str(value))));
    }
}

/// One parameter named `key` for each of `tags`, in order.
pub open spec fn tag_parameters(key: Seq<char>, tags: Seq<Seq<char>>) -> Seq<(Seq<char>, Option<Seq<char>>)> {
    Seq::new(tags.len(), |i: int| (key, Some(tags[i])))
}

/// The `sort` parameter for an ordering: one parameter with the ordering's
/// word, and none at all for an ordering that has no word.
pub open spec fn sort_parameters(option: SortingOption) -> Seq<(Seq<char>, Option<Seq<char>>)> {
    match option.query_value() {
        Some(word) => seq![("sort"@, Some(word))],
        None => Seq::empty(),
    }
}

/// The parameters of a search in the site's dialect: the page, the words
/// looked for, the class of works, the tags demanded and ruled out, and the
/// ordering where it has a word.
pub open spec fn search_query(query: Option<Seq<char>>, page: int, filters: Seq<FilterView>) -> Seq<
    (Seq<char>, Option<Seq<char>>),
> {
    seq![("page"@, Some(decimal(page))), ("q"@, query), ("classes[]"@, Some("Series"@))] + tag_parameters(
        "with[]"@,
        included_tags(filters),
    ) + tag_parameters("without[]"@, excluded_tags(filters)) + sort_parameters(chosen_sort(filters))
}

/// A search ordered by best match names no `sort` parameter at all.
pub proof fn law_best_match_omits_sort(query: Option<Seq<char>>, page: int, filters: Seq<FilterView>)
    requires
        chosen_sort(filters) == SortingOption::BestMatch,
    ensures
        forall|i: int| 0 <= i < search_query(query, page, filters).len() ==> (#[trigger] search_query(
            query,
            page,
            filters,
        )[i]).0 != "sort"@,
{
    lemma_only_sort_is_named_sort(query, page, filters);
}

/// A search ordered otherwise names `sort` once, as its last parameter, with
/// the ordering's word.
pub proof fn law_sort_parameter_is_last(query: Option<Seq<char>>, page: int, filters: Seq<FilterView>)
    requires
        chosen_sort(filters) != SortingOption::BestMatch,
    ensures
        search_query(query, page, filters).last() == ("sort"@, chosen_sort(filters).query_value()),
        chosen_sort(filters).query_value() is Some,
        forall|i: int| 0 <= i < search_query(query, page, filters).len() - 1 ==> (#[trigger] search_query(
            query,
            page,
            filters,
        )[i]).0 != "sort"@,
{
    lemma_only_sort_is_named_sort(query, page, filters);
}

/// None of the parameters before the ordering is named `sort`.
proof fn lemma_only_sort_is_named_sort(query: Option<Seq<char>>, page: int, filters: Seq<FilterView>)
    ensures
        forall|i: int| 0 <= i < search_query(query, page, filters).len() - sort_parameters(chosen_sort(filters)).len()
            ==> (#[trigger] search_query(query, page, filters)[i]).0 != "sort"@,
        search_query(query, page, filters).len() >= 3 + sort_parameters(chosen_sort(filters)).len(),
{
    reveal_strlit("sort");
    reveal_strlit("page");
    reveal_strlit("q");
    reveal_strlit("classes[]");
    reveal_strlit("with[]");
    reveal_strlit("without[]");
    assert("page"@[0] != "sort"@[0]);
    assert("q"@.len() != "sort"@.len());
    assert("classes[]"@.len() != "sort"@.len());
    assert("with[]"@.len() != "sort"@.len());
    assert("without[]"@.len() != "sort"@.len());
}

impl DynastyScans {
    /// Writes a search as the site's query parameters.
    ///
    /// Fails with [`SourceError::Unimplemented`] as soon as one filter is not
    /// [`supported`]; none is passed over in silence.
    pub fn search_parameters(&self, query: Option<String>, page: i32, filters: Vec<FilterValue>) -> (out: Result<
        QueryParameters,
        SourceError,
    >)
        ensures
            out is Ok <==> forall|i: int| 0 <= i < filters@.len() ==> supported(#[trigger] filters@[i]@),
            out matches Ok(parameters) ==> parameters@ == search_query(opt_text(query), page as int, filter_views(filters@)),
            out matches Err(e) ==> e == SourceError::Unimplemented,
    {
        let ghost given = filters@;
        let ghost views = filter_views(given);
        let mut sorting_type = SortingOption::default();
        let mut included_tags: Vec<String> = Vec::new();
        let mut excluded_tags: Vec<String> = Vec::new();
        for filter in it: filters.into_iter()
            invariant
                it.seq() == given,
                views == filter_views(given),
                forall|i: int| 0 <= i < it.index() ==> supported(#[trigger] given[i]@),
                sorting_type == chosen_sort(views.take(it.index())),
                texts(included_tags@) == self::included_tags(views.take(it.index())),
                texts(excluded_tags@) == self::excluded_tags(views.take(it.index())),
        {
            let ghost at = it.index();
            proof {
                assert(views.take(at + 1).drop_last() =~= views.take(at));
                assert(views.take(at + 1).last() == filter@);
                reveal_strlit("Sort");
                reveal_strlit("Tag");
            }
            match filter {
                FilterValue::Sort { id, index } => {
                    if !same_text(id.as_str(), "Sort") {
                        assert(!supported(given[at]@));
                        return Err(SourceError::Unimplemented);
                    }
                    match SortingOption::try_from(index) {
                        Ok(option) => {
                            sorting_type = option;
                        },
                        Err(e) => {
                            assert(!supported(given[at]@));
                            return Err(SourceError::Unimplemented);
                        },
                    }
                    proof {
                        assert(texts(included_tags@) =~= self::included_tags(views.take(at + 1)));
                        assert(texts(excluded_tags@) =~= self::excluded_tags(views.take(at + 1)));
                    }
                },
                FilterValue::MultiSelect { id, included, excluded } => {
                    if !same_text(id.as_str(), "Tag") {
                        assert(!supported(given[at]@));
                        return Err(SourceError::Unimplemented);
                    }
                    let mut included = included;
                    let mut excluded = excluded;
                    proof {
                        lemma_texts_concat(included_tags@, included@);
                        lemma_texts_concat(excluded_tags@, excluded@);
                    }
                    included_tags.append(&mut included);
                    excluded_tags.append(&mut excluded);
                },
                FilterValue::Other => {
                    assert(!supported(given[at]@));
                    return Err(SourceError::Unimplemented);
                },
            }
        }
        proof {
            assert(views.take(given.len() as int) =~= views);
        }
        let page_text = decimal_string(page);
        let mut parameters = QueryParameters::new();
        parameters.push("page", Some(page_text.as_str()));
        parameters.push(
            "q",
            match &query {
                Some(words) => Some(words.as_str()),
                None => None,
            },
        );
        parameters.push("classes[]", Some("Series"));
        let ghost head = parameters@;
        let mut k: usize = 0;
        while k < included_tags.len()
            invariant
                k <= included_tags@.len(),
                parameters@ == head + tag_parameters("with[]"@, texts(included_tags@)).take(k as int),
            decreases included_tags.len() - k,
        {
            parameters.push("with[]", Some(included_tags[k].as_str()));
            proof {
                let wanted = tag_parameters("with[]"@, texts(included_tags@));
                assert(wanted.take(k + 1) =~= wanted.take(k as int).push(wanted[k as int]));
                assert(parameters@ =~= head + wanted.take(k + 1));
            }
            k += 1;
        }
        let ghost middle = parameters@;
        let mut k: usize = 0;
        while k < excluded_tags.len()
            invariant
                k <= excluded_tags@.len(),
                parameters@ == middle + tag_parameters("without[]"@, texts(excluded_tags@)).take(k as int),
            decreases excluded_tags.len() - k,
        {
            parameters.push("without[]", Some(excluded_tags[k].as_str()));
            proof {
                let unwanted = tag_parameters("without[]"@, texts(excluded_tags@));
                assert(unwanted.take(k + 1) =~= unwanted.take(k as int).push(unwanted[k as int]));
                assert(parameters@ =~= middle + unwanted.take(k + 1));
            }
            k += 1;
        }
        let ghost tail = parameters@;
        let sort: Option<&'static str> = Option::from(sorting_type);
        match sort {
            Some(word) => {
                parameters.push("sort", Some(word));
            },
            None => {},
        }
        proof {
            let wanted = tag_parameters("with[]"@, texts(included_tags@));
            let unwanted = tag_parameters("without[]"@, texts(excluded_tags@));
            assert(wanted.take(included_tags@.len() as int) =~= wanted);
            assert(unwanted.take(excluded_tags@.len() as int) =~= unwanted);
            assert(opt_str(sort) == sorting_type.query_value());
            assert(parameters@ =~= tail + sort_parameters(sorting_type));
            assert(head =~= seq![("page"@, Some(decimal(page as int))), ("q"@, opt_text(query)), ("classes[]"@, Some("Series"@))]);
            assert(parameters@ =~= search_query(opt_text(query), page as int, views));
        }
        Ok(parameters)
    }
}

} // verus!
