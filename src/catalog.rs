//! Catalog entries, the index of files already present, and what to do with each entry.
use vstd::prelude::*;
use crate::naming::{derive_filename, filename_of, is_http_url, is_valid_url};

verus! {

/// One entry of the catalog: a name and the URL it is fetched from.
#[derive(Debug, Clone)]
pub struct CatalogItem {
    pub name: String,
    pub url: String,
}

/// The entries that are kept: those whose value is a non-empty string, in their order.
pub open spec fn kept_entries(entries: Seq<(String, Option<String>)>) -> Seq<
    (Seq<char>, Seq<char>),
>
    decreases entries.len(),
{
    if entries.len() == 0 {
        Seq::empty()
    } else {
        let prev = kept_entries(entries.drop_last());
        match entries.last().1 {
            Some(u) => if u@.len() > 0 {
                prev.push((entries.last().0@, u@))
            } else {
                prev
            },
            None => prev,
        }
    }
}

/// Each item as its name and URL.
pub open spec fn item_views(items: Seq<CatalogItem>) -> Seq<(Seq<char>, Seq<char>)> {
    items.map_values(|it: CatalogItem| (it.name@, it.url@))
}

/// Keeps the catalog entries whose value is a string that is not empty; the others are
/// not items at all. `None` stands for a value that is not a string.
pub fn select_items(entries: Vec<(String, Option<String>)>) -> (r: Vec<CatalogItem>)
    ensures
        item_views(r@) == kept_entries(entries@),
{
    let mut r: Vec<CatalogItem> = Vec::new();
    let mut i: usize = 0;
    while i < entries.len()
        invariant
            i <= entries.len(),
            item_views(r@) == kept_entries(entries@.subrange(0, i as int)),
        decreases entries.len() - i,
    {
        let ghost before = r@;
        let (name, value) = &entries[i];
        assert(entries@.subrange(0, i + 1).drop_last() =~= entries@.subrange(0, i as int));
        match value {
            Some(u) => {
                if u.as_str().unicode_len() > 0 {
                    r.push(CatalogItem { name: name.clone(), url: u.clone() });
                    assert(item_views(r@) =~= item_views(before).push((name@, u@)));
                }
            },
            None => {},
        }
        i = i + 1;
    }
    assert(entries@.subrange(0, entries.len() as int) =~= entries@);
    r
}

/// The names of the files found in the output directory before any download starts.
pub struct ExistenceIndex {
    names: Vec<String>,
}

impl View for ExistenceIndex {
    type V = Set<Seq<char>>;

    closed spec fn view(&self) -> Set<Seq<char>> {
        Set::new(|f: Seq<char>| exists|i: int| 0 <= i < self.names@.len() && self.names@[i]@ == f)
    }
}

impl ExistenceIndex {
    /// An index that holds no file: every item counts as new.
    pub fn new() -> (r: ExistenceIndex)
        ensures
            r@ == Set::<Seq<char>>::empty(),
    {
        let r = ExistenceIndex { names: Vec::new() };
        assert(r@ =~= Set::<Seq<char>>::empty());
        r
    }

    /// Records one file name.
    pub fn insert(&mut self, name: String)
        ensures
            final(self)@ == old(self)@.insert(name@),
    {
        let ghost n = name@;
        self.names.push(name);
        assert forall|f: Seq<char>| #[trigger] final(self)@.contains(f) <==> old(self)@.insert(
            n,
        ).contains(f) by {
            if f != n && final(self)@.contains(f) {
                let i = choose|i: int| 0 <= i < self.names@.len() && self.names@[i]@ == f;
                assert(i < old(self).names@.len());
            }
            if old(self)@.contains(f) {
                let i = choose|i: int| 0 <= i < old(self).names@.len() && old(self).names@[i]@ == f;
                assert(self.names@[i] == old(self).names@[i]);
            }
            if f == n {
                assert(self.names@[self.names@.len() - 1]@ == f);
            }
        }
        assert(final(self)@ =~= old(self)@.insert(n));
    }

    /// Builds the index from the names of the directory's entries.
    pub fn from_names(names: Vec<String>) -> (r: ExistenceIndex)
        ensures
            r@ == Set::new(|f: Seq<char>| exists|i: int| 0 <= i < names@.len() && names@[i]@ == f),
    {
        ExistenceIndex { names }
    }

    /// Whether a file of the given name was present.
    pub fn contains(&self, filename: &String) -> (r: bool)
        ensures
            r == self@.contains(filename@),
    {
        let mut i: usize = 0;
        while i < self.names.len()
            invariant
                i <= self.names@.len(),
                forall|k: int| 0 <= k < i ==> self.names@[k]@ != filename@,
            decreases self.names.len() - i,
        {
            if self.names[i] == *filename {
                return true;
            }
            i = i + 1;
        }
        false
    }
}

/// Why an item is not downloaded.
#[derive(Debug, Clone, Copy, PartialEq, Eq, Structural)]
pub enum SkipReason {
    /// Its file was present before the run started.
    AlreadyPresent,
    /// Its URL does not begin with `http://` or `https://`.
    InvalidUrl,
}

/// What to do with one item before any network request.
#[derive(Debug, Clone, PartialEq, Eq)]
pub enum ItemPlan {
    Skip(SkipReason),
    /// Download it into the file of this name.
    Fetch { filename: String },
}

/// Whether an item is downloaded, given the files present before the run.
pub open spec fn will_fetch(name: Seq<char>, url: Seq<char>, present: Set<Seq<char>>) -> bool {
    !present.contains(filename_of(name, url)) && is_http_url(url)
}

/// Decides what to do with an item: skip it where its file is present already or its URL
/// is not an `http(s)` URL, else download it into its file.
pub fn plan_item(name: &str, url: &str, index: &ExistenceIndex) -> (r: ItemPlan)
    ensures
        r == ItemPlan::Skip(SkipReason::AlreadyPresent) <==> index@.contains(
            filename_of(name@, url@),
        ),
        r == ItemPlan::Skip(SkipReason::InvalidUrl) <==> !index@.contains(filename_of(name@, url@))
            && !is_http_url(url@),
        r is Fetch <==> will_fetch(name@, url@, index@),
        r matches ItemPlan::Fetch { filename } ==> filename@ == filename_of(name@, url@),
{
    let filename = derive_filename(name, url);
    if index.contains(&filename) {
        ItemPlan::Skip(SkipReason::AlreadyPresent)
    } else if !is_valid_url(url) {
        ItemPlan::Skip(SkipReason::InvalidUrl)
    } else {
        ItemPlan::Fetch { filename }
    }
}

/// An item whose URL is not an `http(s)` URL is never downloaded, whatever is present.
pub proof fn lemma_invalid_url_never_fetched(
    name: Seq<char>,
    url: Seq<char>,
    present: Set<Seq<char>>,
)
    requires
        !is_http_url(url),
    ensures
        !will_fetch(name, url, present),
{
}

/// Running again over the same items, once every file that the first run downloaded is
/// present, downloads nothing: every item is skipped.
pub proof fn lemma_second_run_fetches_nothing(
    items: Seq<(Seq<char>, Seq<char>)>,
    before: Set<Seq<char>>,
    after: Set<Seq<char>>,
)
    requires
        before.subset_of(after),
        forall|i: int|
            0 <= i < items.len() && will_fetch(items[i].0, items[i].1, before) ==> after.contains(
                filename_of(items[i].0, items[i].1),
            ),
    ensures
        forall|i: int| 0 <= i < items.len() ==> !will_fetch(#[trigger] items[i].0, items[i].1, after),
{
    assert forall|i: int| 0 <= i < items.len() implies !will_fetch(
        #[trigger] items[i].0,
        items[i].1,
        after,
    ) by {
        let f = filename_of(items[i].0, items[i].1);
        if before.contains(f) {
            assert(after.contains(f));
        }
    }
}

} // verus!
