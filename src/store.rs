//! The deduplicating store: publications registered once, articles kept once
//! per identity, each attached to a registered publication.
use vstd::prelude::*;
use crate::article::{Article, ArticleView, Publication, articles_view, opt_view};
use crate::text::str_eq;

verus! {

/// The ids of the two seeded publications.
pub const NRK_ID: &'static str = "NRK";
pub const BBC_ID: &'static str = "BBC";

/// Why a write was refused.
#[derive(Clone, Copy, Debug, PartialEq, Eq, Structural)]
pub enum StoreError {
    /// The article names a publication that is not registered.
    UnknownPublication,
}

/// A registered publication: id, name, url.
pub struct PublicationRecord {
    pub id: String,
    pub name: String,
    pub url: String,
}

/// The store. Rows pair a publication id with an article, in insertion order.
pub struct Store {
    publications: Vec<PublicationRecord>,
    rows: Vec<(String, Article)>,
}

/// The contents of a store as values.
pub struct StoreView {
    pub pubs: Seq<(Seq<char>, Seq<char>, Seq<char>)>,
    pub rows: Seq<(Seq<char>, ArticleView)>,
}

impl View for Store {
    type V = StoreView;

    closed spec fn view(&self) -> StoreView {
        StoreView {
            pubs: self.publications@.map_values(|p: PublicationRecord| (p.id@, p.name@, p.url@)),
            rows: self.rows@.map_values(|r: (String, Article)| (r.0@, r.1@)),
        }
    }
}

pub open spec fn has_pub(v: StoreView, id: Seq<char>) -> bool {
    exists|i: int| 0 <= i < v.pubs.len() && v.pubs[i].0 == id
}

pub open spec fn has_article(v: StoreView, id: Seq<char>) -> bool {
    exists|i: int| 0 <= i < v.rows.len() && v.rows[i].1.id == id
}

/// Publication ids are unique, article ids are unique, and every row names a
/// registered publication.
pub open spec fn store_wf(v: StoreView) -> bool {
    &&& forall|i: int, j: int| 0 <= i < j < v.pubs.len() ==> v.pubs[i].0 != v.pubs[j].0
    &&& forall|i: int, j: int| 0 <= i < j < v.rows.len() ==> v.rows[i].1.id != v.rows[j].1.id
    &&& forall|i: int| 0 <= i < v.rows.len() ==> has_pub(v, #[trigger] v.rows[i].0)
}

/// Registering a publication: nothing changes when its id is known.
pub open spec fn after_register(v: StoreView, id: Seq<char>, name: Seq<char>, url: Seq<char>) -> StoreView {
    if has_pub(v, id) {
        v
    } else {
        StoreView { pubs: v.pubs.push((id, name, url)), rows: v.rows }
    }
}

/// Adding an article: nothing changes when the publication is unknown or an
/// article with the same id is stored; otherwise one row is appended.
pub open spec fn after_add(v: StoreView, a: ArticleView, pid: Seq<char>) -> StoreView {
    if !has_pub(v, pid) || has_article(v, a.id) {
        v
    } else {
        StoreView { pubs: v.pubs, rows: v.rows.push((pid, a)) }
    }
}

/// The articles of the rows that name publication `pid`, in insertion order.
pub open spec fn articles_of(rows: Seq<(Seq<char>, ArticleView)>, pid: Seq<char>) -> Seq<ArticleView>
    decreases rows.len(),
{
    if rows.len() == 0 {
        Seq::empty()
    } else {
        articles_of(rows.drop_last(), pid) + if rows.last().0 == pid {
            seq![rows.last().1]
        } else {
            Seq::empty()
        }
    }
}

impl Store {
    pub open spec fn wf(&self) -> bool {
        store_wf(self@)
    }

    /// Whether a publication with this id is registered.
    pub fn has_publication(&self, id: &str) -> (r: bool)
        ensures
            r == has_pub(self@, id@),
    {
        let mut i: usize = 0;
        while i < self.publications.len()
            invariant
                i <= self.publications@.len(),
                forall|j: int| 0 <= j < i ==> self@.pubs[j].0 != id@,
            decreases self.publications.len() - i,
        {
            if str_eq(self.publications[i].id.as_str(), id) {
                assert(self@.pubs[i as int].0 == id@);
                return true;
            }
            i = i + 1;
        }
        false
    }

    fn find_article(&self, id: &str) -> (r: bool)
        ensures
            r == has_article(self@, id@),
    {
        let mut i: usize = 0;
        while i < self.rows.len()
            invariant
                i <= self.rows@.len(),
                forall|j: int| 0 <= j < i ==> self@.rows[j].1.id != id@,
            decreases self.rows.len() - i,
        {
            if str_eq(self.rows[i].1.id.as_str(), id) {
                assert(self@.rows[i as int].1.id == id@);
                return true;
            }
            i = i + 1;
        }
        false
    }
}

impl Article {
    /// A copy with the same contents.
    pub fn duplicate(&self) -> (r: Article)
        ensures
            r@ == self@,
    {
        let image = match &self.image {
            Some(s) => Some(s.clone()),
            None => None,
        };
        assert(opt_view(image) == opt_view(self.image));
        Article {
            id: self.id.clone(),
            title: self.title.clone(),
            link: self.link.clone(),
            published_time: self.published_time,
            formatted_published_time: self.formatted_published_time.clone(),
            image,
        }
    }
}

/// An empty store.
pub fn init() -> (r: Store)
    ensures
        r@.pubs.len() == 0,
        r@.rows.len() == 0,
        r.wf(),
{
    Store { publications: Vec::new(), rows: Vec::new() }
}

/// Registers a publication under `id` unless that id is registered already.
pub fn add_publication(store: &mut Store, id: &str, publication: Publication)
    requires
        old(store).wf(),
    ensures
        final(store).wf(),
        final(store)@ == after_register(old(store)@, id@, publication.name@, publication.url@),
{
    if store.has_publication(id) {
        return;
    }
    let rec = PublicationRecord { id: id.to_string(), name: publication.name, url: publication.url };
    store.publications.push(rec);
    assert(store@.pubs =~= old(store)@.pubs.push((id@, publication.name@, publication.url@)));
    assert(store@.rows =~= old(store)@.rows);
    assert forall|i: int| 0 <= i < store@.rows.len() implies has_pub(store@, #[trigger] store@.rows[i].0) by {
        let j = choose|j: int| 0 <= j < old(store)@.pubs.len() && old(store)@.pubs[j].0 == old(store)@.rows[i].0;
        assert(store@.pubs[j].0 == store@.rows[i].0);
    }
}

/// Stores `article` under publication `publication_id`. An article whose id
/// is stored already is left as it is, with success; an unknown publication
/// is refused and nothing changes.
pub fn add_article(store: &mut Store, article: Article, publication_id: &str) -> (r: Result<(), StoreError>)
    requires
        old(store).wf(),
    ensures
        final(store).wf(),
        final(store)@ == after_add(old(store)@, article@, publication_id@),
        r == (if has_pub(old(store)@, publication_id@) {
            Ok::<(), StoreError>(())
        } else {
            Err(StoreError::UnknownPublication)
        }),
{
    if !store.has_publication(publication_id) {
        return Err(StoreError::UnknownPublication);
    }
    if store.find_article(article.id.as_str()) {
        return Ok(());
    }
    let ghost a = article@;
    store.rows.push((publication_id.to_string(), article));
    assert(store@.rows =~= old(store)@.rows.push((publication_id@, a)));
    assert(store@.pubs =~= old(store)@.pubs);
    Ok(())
}

/// The stored articles of publication `publication_id`, in insertion order.
pub fn get_articles(store: &Store, publication_id: &str) -> (r: Vec<Article>)
    ensures
        articles_view(r@) == articles_of(store@.rows, publication_id@),
{
    let mut out: Vec<Article> = Vec::new();
    let mut i: usize = 0;
    while i < store.rows.len()
        invariant
            i <= store@.rows.len(),
            articles_view(out@) == articles_of(store@.rows.subrange(0, i as int), publication_id@),
        decreases store.rows.len() - i,
    {
        let ghost prefix = store@.rows.subrange(0, i + 1);
        assert(prefix.drop_last() =~= store@.rows.subrange(0, i as int));
        if str_eq(store.rows[i].0.as_str(), publication_id) {
            out.push(store.rows[i].1.duplicate());
        }
        assert(articles_view(out@) =~= articles_of(prefix, publication_id@));
        i = i + 1;
    }
    assert(store@.rows.subrange(0, store@.rows.len() as int) =~= store@.rows);
    out
}

/// Adding the same article twice leaves the store as adding it once did, and
/// a well-formed store then holds at most one row with that id (exactly one
/// when the publication is registered).
pub proof fn lemma_add_idempotent(v: StoreView, a: ArticleView, pid: Seq<char>)
    requires
        store_wf(v),
    ensures
        after_add(after_add(v, a, pid), a, pid) == after_add(v, a, pid),
        forall|i: int, j: int|
            0 <= i < j < after_add(v, a, pid).rows.len() ==> after_add(v, a, pid).rows[i].1.id
                != after_add(v, a, pid).rows[j].1.id,
        has_pub(v, pid) ==> has_article(after_add(v, a, pid), a.id),
{
    let w = after_add(v, a, pid);
    if has_pub(v, pid) && !has_article(v, a.id) {
        assert(w.rows[w.rows.len() - 1].1.id == a.id);
        assert(has_article(w, a.id));
        let k = choose|k: int| 0 <= k < v.pubs.len() && v.pubs[k].0 == pid;
        assert(w.pubs[k].0 == pid);
    }
}

/// Adding an article under an unregistered publication changes nothing.
pub proof fn lemma_unknown_publication_unchanged(v: StoreView, a: ArticleView, pid: Seq<char>)
    requires
        !has_pub(v, pid),
    ensures
        after_add(v, a, pid) == v,
{
}

} // verus!
