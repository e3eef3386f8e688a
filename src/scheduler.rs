//! The decisions of one source's periodic harvest, and the write of a tick's
//! articles into the store. Timers and fetches are run by the caller, which
//! performs each action and reports each event.
use vstd::prelude::*;
use crate::article::{Article, ArticleView, articles_view};
use crate::store::{Store, StoreView, StoreError, add_article, after_add, has_pub};

verus! {

/// Whether a source's tick is under way.
#[derive(Clone, Copy, Debug, PartialEq, Eq, Structural)]
pub enum TickState {
    Idle,
    Running,
}

/// What happened to a source.
#[derive(Clone, Copy, Debug, PartialEq, Eq, Structural)]
pub enum TickEvent {
    /// The source's timer fired.
    TimerFired,
    /// The source's fetch returned its articles.
    FetchSucceeded,
    /// The source's fetch failed as a whole.
    FetchFailed,
}

/// What the caller is to do next.
#[derive(Clone, Copy, Debug, PartialEq, Eq, Structural)]
pub enum TickAction {
    /// Fetch the source.
    StartFetch,
    /// Write the fetched articles to the store.
    StoreArticles,
    /// Log the failure and wait for the next timer.
    SkipTick,
    /// Nothing.
    Wait,
}

/// One step of a source's harvest: a timer starts a fetch only from `Idle`,
/// so two ticks of one source never overlap; a fetch's outcome ends the tick.
pub open spec fn next(s: TickState, e: TickEvent) -> (TickState, TickAction) {
    match (s, e) {
        (TickState::Idle, TickEvent::TimerFired) => (TickState::Running, TickAction::StartFetch),
        (TickState::Running, TickEvent::FetchSucceeded) => (TickState::Idle, TickAction::StoreArticles),
        (TickState::Running, TickEvent::FetchFailed) => (TickState::Idle, TickAction::SkipTick),
        _ => (s, TickAction::Wait),
    }
}

/// The next state of a source and the action its caller is to perform; a
/// timer that fires while a tick runs starts nothing.
pub fn step(s: TickState, e: TickEvent) -> (r: (TickState, TickAction))
    ensures
        r == next(s, e),
        s == TickState::Running ==> r.1 != TickAction::StartFetch,
{
    match (s, e) {
        (TickState::Idle, TickEvent::TimerFired) => (TickState::Running, TickAction::StartFetch),
        (TickState::Running, TickEvent::FetchSucceeded) => (TickState::Idle, TickAction::StoreArticles),
        (TickState::Running, TickEvent::FetchFailed) => (TickState::Idle, TickAction::SkipTick),
        _ => (s, TickAction::Wait),
    }
}

/// The store after adding `articles` one by one under `pid`.
pub open spec fn after_add_all(v: StoreView, articles: Seq<ArticleView>, pid: Seq<char>) -> StoreView
    decreases articles.len(),
{
    if articles.len() == 0 {
        v
    } else {
        after_add(after_add_all(v, articles.drop_last(), pid), articles.last(), pid)
    }
}

proof fn lemma_unknown_publication_add_all(v: StoreView, articles: Seq<ArticleView>, pid: Seq<char>)
    requires
        !has_pub(v, pid),
    ensures
        after_add_all(v, articles, pid) == v,
    decreases articles.len(),
{
    if articles.len() > 0 {
        lemma_unknown_publication_add_all(v, articles.drop_last(), pid);
    }
}

/// Writes a tick's articles under `publication_id`, in order; articles already
/// stored are left as they are. An unknown publication is refused before any
/// write.
pub fn store_articles(store: &mut Store, articles: Vec<Article>, publication_id: &str) -> (r: Result<
    (),
    StoreError,
>)
    requires
        old(store).wf(),
    ensures
        final(store).wf(),
        r is Ok <==> has_pub(old(store)@, publication_id@),
        final(store)@ == after_add_all(old(store)@, articles_view(articles@), publication_id@),
{
    if !store.has_publication(publication_id) {
        proof {
            lemma_unknown_publication_add_all(store@, articles_view(articles@), publication_id@);
        }
        return Err(StoreError::UnknownPublication);
    }
    let ghost v0 = store@;
    let ghost all = articles_view(articles@);
    let mut i: usize = 0;
    while i < articles.len()
        invariant
            store.wf(),
            all == articles_view(articles@),
            i <= articles@.len(),
            store@.pubs == v0.pubs,
            has_pub(v0, publication_id@),
            store@ == after_add_all(v0, all.subrange(0, i as int), publication_id@),
        decreases articles.len() - i,
    {
        let ghost before = store@;
        assert(has_pub(before, publication_id@));
        let _ = add_article(store, articles[i].duplicate(), publication_id);
        assert(all.subrange(0, i + 1).drop_last() =~= all.subrange(0, i as int));
        assert(all.subrange(0, i + 1).last() == articles@[i as int]@);
        i = i + 1;
    }
    assert(all.subrange(0, all.len() as int) =~= all);
    Ok(())
}

} // verus!
